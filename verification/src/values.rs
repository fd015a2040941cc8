//! Reading the rows that rqlite answers a query with.
//!
//! Each function takes the results of one request, checks their shape and
//! decodes the blobs they hold. Blobs whose values are of the protocol's own
//! data types (predicates, solutions, signatures, fail reasons) are handed
//! back as their bytes; words and hashes are decoded here.
use crate::blob::{blob_bytes, decode_hash, decode_words, spec_blob_bytes, spec_decode_hash, spec_decode_words};
use crate::json::{lookup, spec_lookup, take_entry, JsonNumber, JsonValue};
use vstd::prelude::*;

verus! {

/// The columns of one row.
#[derive(Debug, PartialEq, Eq)]
pub struct Columns {
    pub columns: Vec<JsonValue>,
}

/// The rows that one query returned.
#[derive(Debug, PartialEq, Eq)]
pub struct Rows {
    pub rows: Vec<Columns>,
}

/// The results of the queries of one request, in order; `None` for a query
/// that returned no rows.
#[derive(Debug, PartialEq, Eq)]
pub struct QueryValues {
    pub queries: Vec<Option<Rows>>,
}

/// Why a query result could not be read.
#[derive(Debug, PartialEq, Eq)]
pub enum ValuesError {
    /// The request returned another number or shape of query results.
    UnexpectedQueries,
    /// A query that must return rows returned none.
    NoRows,
    /// A query that must return a single row returned another number.
    UnexpectedRows,
    /// A row had another number or kind of columns than expected.
    UnexpectedColumns,
    /// A column held a value of an unexpected type.
    UnexpectedType,
    /// A blob was not hex, or did not decode to the expected value.
    InvalidBlob,
    /// A number that must be a non-negative integer was not.
    InvalidNumber,
    /// The same contract id carried two salts.
    DuplicateContractId,
    /// A contract id had predicates but no salt.
    MissingSalt,
    /// A batch id of zero, which names no block.
    ZeroBatchId,
    /// The response had no list of results.
    MissingResults,
    /// The list of results had another length or shape than expected.
    InvalidResults,
    /// A write did not change exactly one row.
    RowNotChanged,
    /// A statement failed; the message that rqlite gave.
    StatementFailed(String),
}

/// The columns of a row, as a sequence.
pub open spec fn cols(c: Columns) -> Seq<JsonValue> {
    c.columns@
}

/// Views of a sequence of byte vectors.
pub open spec fn blobs_view(v: Seq<Vec<u8>>) -> Seq<Seq<u8>> {
    v.map_values(|b: Vec<u8>| b@)
}

/// The bytes of a blob column.
pub open spec fn spec_blob_value(v: JsonValue) -> Result<Seq<u8>, ValuesError> {
    match v {
        JsonValue::String(s) => match spec_blob_bytes(s@) {
            Some(b) => Ok(b),
            None => Err(ValuesError::InvalidBlob),
        },
        _ => Err(ValuesError::UnexpectedType),
    }
}

/// The bytes of the blob in a row of exactly one column.
pub open spec fn spec_single_blob_row(c: Columns) -> Result<Seq<u8>, ValuesError> {
    if cols(c).len() != 1 {
        Err(ValuesError::UnexpectedColumns)
    } else {
        spec_blob_value(cols(c)[0])
    }
}

/// Reads every row with `f`: the values in order, or the error of the first
/// row that `f` refuses.
pub open spec fn spec_map_rows<T>(
    rows: Seq<Columns>,
    f: spec_fn(Columns) -> Result<T, ValuesError>,
) -> Result<Seq<T>, ValuesError>
    decreases rows.len(),
{
    if rows.len() == 0 {
        Ok(Seq::empty())
    } else {
        match spec_map_rows(rows.drop_last(), f) {
            Err(e) => Err(e),
            Ok(acc) => match f(rows.last()) {
                Err(e) => Err(e),
                Ok(b) => Ok(acc.push(b)),
            },
        }
    }
}

/// An error in a prefix of the rows is the error of all of them.
pub proof fn lemma_map_rows_err<T>(
    rows: Seq<Columns>,
    f: spec_fn(Columns) -> Result<T, ValuesError>,
    k: int,
)
    requires
        0 <= k <= rows.len(),
        spec_map_rows(rows.take(k), f) is Err,
    ensures
        spec_map_rows(rows, f) == spec_map_rows(rows.take(k), f),
    decreases rows.len(),
{
    if k == rows.len() {
        assert(rows.take(k) =~= rows);
    } else {
        assert(rows.drop_last().take(k) =~= rows.take(k));
        lemma_map_rows_err(rows.drop_last(), f, k);
    }
}

/// One more row read by `f`.
pub proof fn lemma_map_rows_step<T>(
    rows: Seq<Columns>,
    f: spec_fn(Columns) -> Result<T, ValuesError>,
    i: int,
)
    requires
        0 <= i < rows.len(),
    ensures
        spec_map_rows(rows.take(i + 1), f) == (match spec_map_rows(rows.take(i), f) {
            Err(e) => Err(e),
            Ok(acc) => match f(rows[i]) {
                Err(e) => Err(e),
                Ok(b) => Ok(acc.push(b)),
            },
        }),
{
    assert(rows.take(i + 1).drop_last() =~= rows.take(i));
    assert(rows.take(i + 1).last() == rows[i]);
}

/// The blobs of rows of one column each, or the error of the first bad row.
pub open spec fn spec_blob_rows(rows: Seq<Columns>) -> Result<Seq<Seq<u8>>, ValuesError> {
    spec_map_rows(rows, |c: Columns| spec_single_blob_row(c))
}

/// Reads the bytes of a blob column.
pub fn blob_value(v: &JsonValue) -> (r: Result<Vec<u8>, ValuesError>)
    ensures
        match r {
            Ok(b) => spec_blob_value(*v) == Ok::<Seq<u8>, ValuesError>(b@),
            Err(e) => spec_blob_value(*v) == Err::<Seq<u8>, ValuesError>(e),
        },
{
    match v {
        JsonValue::String(s) => match blob_bytes(s) {
            Some(b) => Ok(b),
            None => Err(ValuesError::InvalidBlob),
        },
        _ => Err(ValuesError::UnexpectedType),
    }
}

/// Reads the blob in a row of exactly one column.
pub fn single_blob_row(c: &Columns) -> (r: Result<Vec<u8>, ValuesError>)
    ensures
        match r {
            Ok(b) => spec_single_blob_row(*c) == Ok::<Seq<u8>, ValuesError>(b@),
            Err(e) => spec_single_blob_row(*c) == Err::<Seq<u8>, ValuesError>(e),
        },
{
    if c.columns.len() != 1 {
        Err(ValuesError::UnexpectedColumns)
    } else {
        blob_value(&c.columns[0])
    }
}

/// Reads the blobs of rows of one column each.
pub fn blob_rows(rows: &Vec<Columns>) -> (r: Result<Vec<Vec<u8>>, ValuesError>)
    ensures
        match r {
            Ok(v) => spec_blob_rows(rows@) == Ok::<Seq<Seq<u8>>, ValuesError>(blobs_view(v@)),
            Err(e) => spec_blob_rows(rows@) == Err::<Seq<Seq<u8>>, ValuesError>(e),
        },
{
    let mut out: Vec<Vec<u8>> = Vec::new();
    let mut i: usize = 0;
    assert(rows@.take(0) =~= Seq::<Columns>::empty());
    assert(blobs_view(out@) =~= Seq::<Seq<u8>>::empty());
    while i < rows.len()
        invariant
            i <= rows@.len(),
            spec_blob_rows(rows@.take(i as int)) == Ok::<Seq<Seq<u8>>, ValuesError>(
                blobs_view(out@),
            ),
        decreases rows@.len() - i,
    {
        proof {
            lemma_map_rows_step(rows@, |c: Columns| spec_single_blob_row(c), i as int);
        }
        match single_blob_row(&rows[i]) {
            Ok(b) => {
                let ghost prev = out@;
                out.push(b);
                assert(blobs_view(out@) =~= blobs_view(prev).push(b@));
            },
            Err(e) => {
                proof {
                    lemma_map_rows_err(rows@, |c: Columns| spec_single_blob_row(c), (i + 1) as int);
                }
                return Err(e);
            },
        }
        i = i + 1;
    }
    assert(rows@.take(rows@.len() as int) =~= rows@);
    Ok(out)
}

/// The one value of a result of one query, one row and one column.
pub open spec fn spec_single_value(queries: QueryValues) -> Option<JsonValue> {
    let qs = queries.queries@;
    if qs.len() == 1 && qs[0] is Some && qs[0]->0.rows@.len() == 1 && cols(
        qs[0]->0.rows@[0],
    ).len() == 1 {
        Some(cols(qs[0]->0.rows@[0])[0])
    } else {
        None
    }
}

/// Get a single value from the query results: the value where there was one
/// query with one row of one column, else `None`.
pub fn single_value(queries: &QueryValues) -> (r: Option<&JsonValue>)
    ensures
        match r {
            Some(v) => spec_single_value(*queries) == Some(*v),
            None => spec_single_value(*queries) is None,
        },
{
    if queries.queries.len() == 1 {
        match &queries.queries[0] {
            Some(rows) => {
                if rows.rows.len() == 1 && rows.rows[0].columns.len() == 1 {
                    return Some(&rows.rows[0].columns[0]);
                }
            },
            None => {},
        }
    }
    None
}

/// A signed contract as stored: the bytes of its signature and of each of its
/// predicates, in order.
#[derive(Debug, PartialEq, Eq)]
pub struct ContractBlobs {
    pub signature: Vec<u8>,
    pub predicates: Vec<Vec<u8>>,
}

/// A contract as [`get_contract`] reads it from the results of its two
/// queries, the signature and the predicates.
pub open spec fn spec_get_contract(queries: QueryValues) -> Result<
    Option<(Seq<u8>, Seq<Seq<u8>>)>,
    ValuesError,
> {
    let qs = queries.queries@;
    if qs.len() == 2 && qs[0] is None && qs[1] is None {
        Ok(None)
    } else if qs.len() == 2 && qs[0] is Some && qs[1] is Some {
        let sig = qs[0]->0.rows@;
        if sig.len() != 1 {
            Err(ValuesError::UnexpectedRows)
        } else if !(cols(sig[0]).len() == 1 && cols(sig[0])[0] is String) {
            Err(ValuesError::UnexpectedColumns)
        } else {
            match spec_blob_value(cols(sig[0])[0]) {
                Err(e) => Err(e),
                Ok(s) => match spec_blob_rows(qs[1]->0.rows@) {
                    Err(e) => Err(e),
                    Ok(p) => Ok(Some((s, p))),
                },
            }
        }
    } else {
        Err(ValuesError::UnexpectedQueries)
    }
}

/// Reads a signed contract from the results of its two queries: the signature
/// (one row, one blob column) and the predicates (one blob column per row).
/// Two empty results mean that there is no such contract.
pub fn get_contract(queries: QueryValues) -> (r: Result<Option<ContractBlobs>, ValuesError>)
    ensures
        match r {
            Ok(Some(c)) => spec_get_contract(queries) == Ok::<_, ValuesError>(
                Some((c.signature@, blobs_view(c.predicates@))),
            ),
            Ok(None) => spec_get_contract(queries) == Ok::<
                Option<(Seq<u8>, Seq<Seq<u8>>)>,
                ValuesError,
            >(None),
            Err(e) => spec_get_contract(queries) == Err::<
                Option<(Seq<u8>, Seq<Seq<u8>>)>,
                ValuesError,
            >(e),
        },
{
    if queries.queries.len() != 2 {
        return Err(ValuesError::UnexpectedQueries);
    }
    match (&queries.queries[0], &queries.queries[1]) {
        (None, None) => Ok(None),
        (Some(sig), Some(preds)) => {
            if sig.rows.len() != 1 {
                return Err(ValuesError::UnexpectedRows);
            }
            let row = &sig.rows[0];
            if row.columns.len() != 1 {
                return Err(ValuesError::UnexpectedColumns);
            }
            match &row.columns[0] {
                JsonValue::String(_) => {},
                _ => {
                    return Err(ValuesError::UnexpectedColumns);
                },
            }
            let signature = blob_value(&row.columns[0])?;
            let predicates = blob_rows(&preds.rows)?;
            Ok(Some(ContractBlobs { signature, predicates }))
        },
        _ => Err(ValuesError::UnexpectedQueries),
    }
}

/// The solution rows of one query: `None` where the query returned nothing;
/// else every row must hold one blob.
pub open spec fn spec_solution_rows(queries: QueryValues) -> Result<Seq<Seq<u8>>, ValuesError> {
    let qs = queries.queries@;
    if qs.len() == 1 && qs[0] is None {
        Ok(Seq::empty())
    } else if qs.len() == 1 && qs[0] is Some {
        if qs[0]->0.rows@.len() == 0 {
            Err(ValuesError::NoRows)
        } else {
            spec_blob_rows(qs[0]->0.rows@)
        }
    } else {
        Err(ValuesError::UnexpectedQueries)
    }
}

/// Reads the solutions of one query, one blob column per row.
pub fn list_solutions(queries: QueryValues) -> (r: Result<Vec<Vec<u8>>, ValuesError>)
    ensures
        match r {
            Ok(v) => spec_solution_rows(queries) == Ok::<Seq<Seq<u8>>, ValuesError>(
                blobs_view(v@),
            ),
            Err(e) => spec_solution_rows(queries) == Err::<Seq<Seq<u8>>, ValuesError>(e),
        },
{
    if queries.queries.len() != 1 {
        return Err(ValuesError::UnexpectedQueries);
    }
    match &queries.queries[0] {
        None => {
            let v: Vec<Vec<u8>> = Vec::new();
            assert(blobs_view(v@) =~= Seq::<Seq<u8>>::empty());
            Ok(v)
        },
        Some(rows) => {
            if rows.rows.len() == 0 {
                return Err(ValuesError::NoRows);
            }
            blob_rows(&rows.rows)
        },
    }
}

/// Reads the solutions in the pool, one blob column per row.
pub fn list_solutions_pool(queries: QueryValues) -> (r: Result<Vec<Vec<u8>>, ValuesError>)
    ensures
        match r {
            Ok(v) => spec_solution_rows(queries) == Ok::<Seq<Seq<u8>>, ValuesError>(
                blobs_view(v@),
            ),
            Err(e) => spec_solution_rows(queries) == Err::<Seq<Seq<u8>>, ValuesError>(e),
        },
{
    list_solutions(queries)
}

/// A failed solution as stored: the bytes of the solution and of the reason.
#[derive(Debug, PartialEq, Eq)]
pub struct FailedSolutionBlobs {
    pub solution: Vec<u8>,
    pub reason: Vec<u8>,
}

/// A failed solution row: a solution blob, then a reason blob.
pub open spec fn spec_failed_row(c: Columns) -> Result<(Seq<u8>, Seq<u8>), ValuesError> {
    if cols(c).len() != 2 {
        Err(ValuesError::UnexpectedColumns)
    } else {
        match spec_blob_value(cols(c)[0]) {
            Err(e) => Err(e),
            Ok(sol) => match spec_blob_value(cols(c)[1]) {
                Err(e) => Err(e),
                Ok(reason) => Ok((sol, reason)),
            },
        }
    }
}

/// The failed solutions of one query, or why they cannot be read.
pub open spec fn spec_failed_solutions(queries: QueryValues) -> Result<
    Seq<(Seq<u8>, Seq<u8>)>,
    ValuesError,
> {
    let qs = queries.queries@;
    if qs.len() == 1 && qs[0] is None {
        Ok(Seq::empty())
    } else if qs.len() == 1 && qs[0] is Some {
        if qs[0]->0.rows@.len() == 0 {
            Err(ValuesError::NoRows)
        } else {
            spec_map_rows(qs[0]->0.rows@, |c: Columns| spec_failed_row(c))
        }
    } else {
        Err(ValuesError::UnexpectedQueries)
    }
}

/// Views of failed solutions.
pub open spec fn failed_view(v: Seq<FailedSolutionBlobs>) -> Seq<(Seq<u8>, Seq<u8>)> {
    v.map_values(|f: FailedSolutionBlobs| (f.solution@, f.reason@))
}

/// Reads a failed solution row.
fn failed_row(c: &Columns) -> (r: Result<FailedSolutionBlobs, ValuesError>)
    ensures
        match r {
            Ok(f) => spec_failed_row(*c) == Ok::<_, ValuesError>((f.solution@, f.reason@)),
            Err(e) => spec_failed_row(*c) == Err::<(Seq<u8>, Seq<u8>), ValuesError>(e),
        },
{
    if c.columns.len() != 2 {
        return Err(ValuesError::UnexpectedColumns);
    }
    let solution = blob_value(&c.columns[0])?;
    let reason = blob_value(&c.columns[1])?;
    Ok(FailedSolutionBlobs { solution, reason })
}

/// Reads the failed solutions of one query, a solution blob and a reason
/// blob per row.
pub fn list_failed_solutions(queries: QueryValues) -> (r: Result<
    Vec<FailedSolutionBlobs>,
    ValuesError,
>)
    ensures
        match r {
            Ok(v) => spec_failed_solutions(queries) == Ok::<_, ValuesError>(failed_view(v@)),
            Err(e) => spec_failed_solutions(queries) == Err::<Seq<(Seq<u8>, Seq<u8>)>, ValuesError>(
                e,
            ),
        },
{
    if queries.queries.len() != 1 {
        return Err(ValuesError::UnexpectedQueries);
    }
    let rows = match &queries.queries[0] {
        None => {
            let v: Vec<FailedSolutionBlobs> = Vec::new();
            assert(failed_view(v@) =~= Seq::<(Seq<u8>, Seq<u8>)>::empty());
            return Ok(v);
        },
        Some(rows) => &rows.rows,
    };
    if rows.len() == 0 {
        return Err(ValuesError::NoRows);
    }
    let mut out: Vec<FailedSolutionBlobs> = Vec::new();
    let mut i: usize = 0;
    assert(rows@.take(0) =~= Seq::<Columns>::empty());
    assert(failed_view(out@) =~= Seq::<(Seq<u8>, Seq<u8>)>::empty());
    while i < rows.len()
        invariant
            i <= rows@.len(),
            queries.queries@.len() == 1,
            queries.queries@[0] is Some,
            rows@ == queries.queries@[0]->0.rows@,
            spec_map_rows(rows@.take(i as int), |c: Columns| spec_failed_row(c)) == Ok::<_, ValuesError>(failed_view(out@)),
        decreases rows@.len() - i,
    {
        proof {
            lemma_map_rows_step(rows@, |c: Columns| spec_failed_row(c), i as int);
        }
        match failed_row(&rows[i]) {
            Ok(b) => {
                let ghost prev = out@;
                out.push(b);
                assert(failed_view(out@) =~= failed_view(prev).push((b.solution@, b.reason@)));
            },
            Err(e) => {
                proof {
                    lemma_map_rows_err(rows@, |c: Columns| spec_failed_row(c), (i + 1) as int);
                }
                return Err(e);
            },
        }
        i = i + 1;
    }
    assert(rows@.take(rows@.len() as int) =~= rows@);
    Ok(out)
}

/// The outcome of a solution in one block, as stored: the number of the block
/// that it was part of, or the bytes of the reason why it failed.
#[derive(Debug, PartialEq, Eq)]
pub enum StoredOutcome {
    Success(u64),
    Fail(Vec<u8>),
}

/// The view of a stored outcome.
pub enum OutcomeView {
    Success(u64),
    Fail(Seq<u8>),
}

/// The view of a stored outcome.
pub open spec fn outcome_view(o: StoredOutcome) -> OutcomeView {
    match o {
        StoredOutcome::Success(n) => OutcomeView::Success(n),
        StoredOutcome::Fail(b) => OutcomeView::Fail(b@),
    }
}

/// Views of stored outcomes.
pub open spec fn outcomes_view(v: Seq<StoredOutcome>) -> Seq<OutcomeView> {
    v.map_values(|o: StoredOutcome| outcome_view(o))
}

/// An outcome row: a block number and null, or null and a reason blob.
pub open spec fn spec_outcome_row(c: Columns) -> Result<OutcomeView, ValuesError> {
    if cols(c).len() != 2 {
        Err(ValuesError::UnexpectedColumns)
    } else {
        match (cols(c)[0], cols(c)[1]) {
            (JsonValue::Number(n), JsonValue::Null) => match n.spec_as_u64() {
                Some(k) => Ok(OutcomeView::Success(k)),
                None => Err(ValuesError::InvalidNumber),
            },
            (JsonValue::Null, JsonValue::String(s)) => match spec_blob_bytes(s@) {
                Some(b) => Ok(OutcomeView::Fail(b)),
                None => Err(ValuesError::InvalidBlob),
            },
            _ => Err(ValuesError::UnexpectedColumns),
        }
    }
}

/// Reads an outcome row.
fn outcome_row(c: &Columns) -> (r: Result<StoredOutcome, ValuesError>)
    ensures
        match r {
            Ok(o) => spec_outcome_row(*c) == Ok::<_, ValuesError>(outcome_view(o)),
            Err(e) => spec_outcome_row(*c) == Err::<OutcomeView, ValuesError>(e),
        },
{
    if c.columns.len() != 2 {
        return Err(ValuesError::UnexpectedColumns);
    }
    match (&c.columns[0], &c.columns[1]) {
        (JsonValue::Number(n), JsonValue::Null) => match n.as_u64() {
            Some(k) => Ok(StoredOutcome::Success(k)),
            None => Err(ValuesError::InvalidNumber),
        },
        (JsonValue::Null, JsonValue::String(s)) => match blob_bytes(s) {
            Some(b) => Ok(StoredOutcome::Fail(b)),
            None => Err(ValuesError::InvalidBlob),
        },
        _ => Err(ValuesError::UnexpectedColumns),
    }
}

/// Reads outcome rows.
fn outcome_rows(rows: &Vec<Columns>) -> (r: Result<Vec<StoredOutcome>, ValuesError>)
    ensures
        match r {
            Ok(v) => spec_map_rows(rows@, |c: Columns| spec_outcome_row(c)) == Ok::<
                _,
                ValuesError,
            >(outcomes_view(v@)),
            Err(e) => spec_map_rows(rows@, |c: Columns| spec_outcome_row(c)) == Err::<
                Seq<OutcomeView>,
                ValuesError,
            >(e),
        },
{
    let mut out: Vec<StoredOutcome> = Vec::new();
    let mut i: usize = 0;
    assert(rows@.take(0) =~= Seq::<Columns>::empty());
    assert(outcomes_view(out@) =~= Seq::<OutcomeView>::empty());
    while i < rows.len()
        invariant
            i <= rows@.len(),
            spec_map_rows(rows@.take(i as int), |c: Columns| spec_outcome_row(c)) == Ok::<_, ValuesError>(outcomes_view(out@)),
        decreases rows@.len() - i,
    {
        proof {
            lemma_map_rows_step(rows@, |c: Columns| spec_outcome_row(c), i as int);
        }
        match outcome_row(&rows[i]) {
            Ok(b) => {
                let ghost prev = out@;
                let ghost bv = outcome_view(b);
                out.push(b);
                assert(outcomes_view(out@) =~= outcomes_view(prev).push(bv));
            },
            Err(e) => {
                proof {
                    lemma_map_rows_err(rows@, |c: Columns| spec_outcome_row(c), (i + 1) as int);
                }
                return Err(e);
            },
        }
        i = i + 1;
    }
    assert(rows@.take(rows@.len() as int) =~= rows@);
    Ok(out)
}

/// A solution with its outcomes, as stored.
#[derive(Debug, PartialEq, Eq)]
pub struct SolutionOutcomeBlobs {
    pub solution: Vec<u8>,
    pub outcome: Vec<StoredOutcome>,
}

/// A solution and its outcomes read from the solution rows and outcome rows.
pub open spec fn spec_solution_with_outcomes(sol: Seq<Columns>, outs: Seq<Columns>) -> Result<
    Option<(Seq<u8>, Seq<OutcomeView>)>,
    ValuesError,
> {
    if sol.len() != 1 {
        Err(ValuesError::UnexpectedRows)
    } else if !(cols(sol[0]).len() == 1 && cols(sol[0])[0] is String) {
        Err(ValuesError::UnexpectedColumns)
    } else {
        match spec_map_rows(outs, |c: Columns| spec_outcome_row(c)) {
            Err(e) => Err(e),
            Ok(o) => match spec_blob_value(cols(sol[0])[0]) {
                Err(e) => Err(e),
                Ok(s) => Ok(Some((s, o))),
            },
        }
    }
}

/// A solution and its outcomes as [`get_solution`] reads them from the
/// results of its two queries.
pub open spec fn spec_get_solution(queries: QueryValues) -> Result<
    Option<(Seq<u8>, Seq<OutcomeView>)>,
    ValuesError,
> {
    let qs = queries.queries@;
    if qs.len() != 2 {
        Err(ValuesError::UnexpectedQueries)
    } else if qs[0] is None {
        Ok(None)
    } else if qs[1] is Some {
        spec_solution_with_outcomes(qs[0]->0.rows@, qs[1]->0.rows@)
    } else {
        spec_solution_with_outcomes(qs[0]->0.rows@, Seq::empty())
    }
}

/// Reads a solution and its outcomes from the results of two queries: the
/// solution (one row, one blob column) and its outcomes (one row per block
/// or failure). An empty first result means there is no such solution; an
/// empty second result means there are no outcomes yet.
pub fn get_solution(queries: QueryValues) -> (r: Result<Option<SolutionOutcomeBlobs>, ValuesError>)
    ensures
        match r {
            Ok(Some(s)) => spec_get_solution(queries) == Ok::<_, ValuesError>(
                Some((s.solution@, outcomes_view(s.outcome@))),
            ),
            Ok(None) => spec_get_solution(queries) == Ok::<
                Option<(Seq<u8>, Seq<OutcomeView>)>,
                ValuesError,
            >(None),
            Err(e) => spec_get_solution(queries) == Err::<
                Option<(Seq<u8>, Seq<OutcomeView>)>,
                ValuesError,
            >(e),
        },
{
    if queries.queries.len() != 2 {
        return Err(ValuesError::UnexpectedQueries);
    }
    let sol = match &queries.queries[0] {
        None => {
            return Ok(None);
        },
        Some(rows) => &rows.rows,
    };
    let empty: Vec<Columns> = Vec::new();
    let outs = match &queries.queries[1] {
        Some(rows) => &rows.rows,
        None => &empty,
    };
    assert(queries.queries@[1] is None ==> outs@ =~= Seq::<Columns>::empty());
    if sol.len() != 1 {
        return Err(ValuesError::UnexpectedRows);
    }
    let row = &sol[0];
    if row.columns.len() != 1 {
        return Err(ValuesError::UnexpectedColumns);
    }
    match &row.columns[0] {
        JsonValue::String(_) => {},
        _ => {
            return Err(ValuesError::UnexpectedColumns);
        },
    }
    let outcome = outcome_rows(outs)?;
    let solution = blob_value(&row.columns[0])?;
    Ok(Some(SolutionOutcomeBlobs { solution, outcome }))
}

/// A salt row: a contract id and a salt blob.
pub open spec fn spec_salt_row(c: Columns) -> Result<(u64, Seq<u8>), ValuesError> {
    if cols(c).len() == 2 && cols(c)[0] is Number && cols(c)[1] is String {
        match cols(c)[0]->Number_0.spec_as_u64() {
            None => Err(ValuesError::InvalidNumber),
            Some(id) => match spec_decode_hash(cols(c)[1]->String_0@) {
                None => Err(ValuesError::InvalidBlob),
                Some(h) => Ok((id, h)),
            },
        }
    } else {
        Err(ValuesError::UnexpectedColumns)
    }
}

/// A predicate row: a contract id and a predicate blob.
pub open spec fn spec_predicate_row(c: Columns) -> Result<(u64, Seq<u8>), ValuesError> {
    if cols(c).len() == 2 && cols(c)[0] is Number && cols(c)[1] is String {
        match cols(c)[0]->Number_0.spec_as_u64() {
            None => Err(ValuesError::InvalidNumber),
            Some(id) => match spec_blob_bytes(cols(c)[1]->String_0@) {
                None => Err(ValuesError::InvalidBlob),
                Some(b) => Ok((id, b)),
            },
        }
    } else {
        Err(ValuesError::UnexpectedColumns)
    }
}

/// Whether a contract id occurs among the salts read so far.
pub open spec fn has_id(salts: Seq<(u64, Seq<u8>)>, id: u64) -> bool {
    exists|k: int| 0 <= k < salts.len() && salts[k].0 == id
}

/// The salts of the salt rows, in row order; an id may carry one salt only.
pub open spec fn spec_salts(rows: Seq<Columns>) -> Result<Seq<(u64, Seq<u8>)>, ValuesError>
    decreases rows.len(),
{
    if rows.len() == 0 {
        Ok(Seq::empty())
    } else {
        match spec_salts(rows.drop_last()) {
            Err(e) => Err(e),
            Ok(acc) => match spec_salt_row(rows.last()) {
                Err(e) => Err(e),
                Ok((id, h)) => if has_id(acc, id) {
                    Err(ValuesError::DuplicateContractId)
                } else {
                    Ok(acc.push((id, h)))
                },
            },
        }
    }
}

/// Index of the first group whose id is at least `id`.
pub open spec fn group_pos(gs: Seq<(u64, Seq<Seq<u8>>)>, id: u64) -> int
    decreases gs.len(),
{
    if gs.len() == 0 {
        0
    } else if gs[0].0 >= id {
        0
    } else {
        1 + group_pos(gs.drop_first(), id)
    }
}

/// Adds a predicate of contract `id` to groups kept in ascending id order.
pub open spec fn spec_add_to_group(gs: Seq<(u64, Seq<Seq<u8>>)>, id: u64, b: Seq<u8>) -> Seq<
    (u64, Seq<Seq<u8>>),
> {
    let j = group_pos(gs, id);
    if j < gs.len() && gs[j].0 == id {
        gs.update(j, (id, gs[j].1.push(b)))
    } else {
        gs.insert(j, (id, seq![b]))
    }
}

/// The predicate rows grouped by contract id, in ascending id order, each
/// group's predicates in row order.
pub open spec fn spec_groups(rows: Seq<Columns>) -> Result<Seq<(u64, Seq<Seq<u8>>)>, ValuesError>
    decreases rows.len(),
{
    if rows.len() == 0 {
        Ok(Seq::empty())
    } else {
        match spec_groups(rows.drop_last()) {
            Err(e) => Err(e),
            Ok(gs) => match spec_predicate_row(rows.last()) {
                Err(e) => Err(e),
                Ok((id, b)) => Ok(spec_add_to_group(gs, id, b)),
            },
        }
    }
}

/// The salt of contract `id`, if any.
pub open spec fn find_salt(salts: Seq<(u64, Seq<u8>)>, id: u64) -> Option<Seq<u8>>
    decreases salts.len(),
{
    if salts.len() == 0 {
        None
    } else if salts[0].0 == id {
        Some(salts[0].1)
    } else {
        find_salt(salts.drop_first(), id)
    }
}

/// Each group with its salt, or `MissingSalt` where a group has none.
pub open spec fn spec_attach_salts(
    gs: Seq<(u64, Seq<Seq<u8>>)>,
    salts: Seq<(u64, Seq<u8>)>,
) -> Result<Seq<(u64, Seq<u8>, Seq<Seq<u8>>)>, ValuesError>
    decreases gs.len(),
{
    if gs.len() == 0 {
        Ok(Seq::empty())
    } else {
        match spec_attach_salts(gs.drop_last(), salts) {
            Err(e) => Err(e),
            Ok(acc) => match find_salt(salts, gs.last().0) {
                None => Err(ValuesError::MissingSalt),
                Some(h) => Ok(acc.push((gs.last().0, h, gs.last().1))),
            },
        }
    }
}

/// The contracts as [`list_contracts`] reads them from the salt rows and the
/// predicate rows.
pub open spec fn spec_list_contracts(queries: QueryValues) -> Result<
    Seq<(u64, Seq<u8>, Seq<Seq<u8>>)>,
    ValuesError,
> {
    let qs = queries.queries@;
    if qs.len() == 2 && qs[0] is None && qs[1] is None {
        Ok(Seq::empty())
    } else if qs.len() == 2 && qs[0] is Some && qs[1] is Some {
        if qs[0]->0.rows@.len() == 0 || qs[1]->0.rows@.len() == 0 {
            Err(ValuesError::NoRows)
        } else {
            match spec_salts(qs[0]->0.rows@) {
                Err(e) => Err(e),
                Ok(salts) => match spec_groups(qs[1]->0.rows@) {
                    Err(e) => Err(e),
                    Ok(gs) => spec_attach_salts(gs, salts),
                },
            }
        }
    } else {
        Err(ValuesError::UnexpectedQueries)
    }
}

/// A contract as stored: its id in storage, its salt and the bytes of its
/// predicates in order.
#[derive(Debug, PartialEq, Eq)]
pub struct ContractRows {
    pub contract_id: u64,
    pub salt: [u8; 32],
    pub predicates: Vec<Vec<u8>>,
}

/// Views of contracts as stored.
pub open spec fn contracts_view(v: Seq<ContractRows>) -> Seq<(u64, Seq<u8>, Seq<Seq<u8>>)> {
    v.map_values(|c: ContractRows| (c.contract_id, c.salt@, blobs_view(c.predicates@)))
}

/// Views of groups.
pub open spec fn groups_view(v: Seq<(u64, Vec<Vec<u8>>)>) -> Seq<(u64, Seq<Seq<u8>>)> {
    v.map_values(|g: (u64, Vec<Vec<u8>>)| (g.0, blobs_view(g.1@)))
}

/// Views of salts.
pub open spec fn salts_view(v: Seq<(u64, [u8; 32])>) -> Seq<(u64, Seq<u8>)> {
    v.map_values(|g: (u64, [u8; 32])| (g.0, g.1@))
}

/// Reads a salt row.
fn salt_row(c: &Columns) -> (r: Result<(u64, [u8; 32]), ValuesError>)
    ensures
        match r {
            Ok((id, h)) => spec_salt_row(*c) == Ok::<_, ValuesError>((id, h@)),
            Err(e) => spec_salt_row(*c) == Err::<(u64, Seq<u8>), ValuesError>(e),
        },
{
    if c.columns.len() != 2 {
        return Err(ValuesError::UnexpectedColumns);
    }
    match (&c.columns[0], &c.columns[1]) {
        (JsonValue::Number(n), JsonValue::String(s)) => match n.as_u64() {
            None => Err(ValuesError::InvalidNumber),
            Some(id) => match decode_hash(s) {
                None => Err(ValuesError::InvalidBlob),
                Some(h) => Ok((id, h)),
            },
        },
        _ => Err(ValuesError::UnexpectedColumns),
    }
}

/// Reads a predicate row.
fn predicate_row(c: &Columns) -> (r: Result<(u64, Vec<u8>), ValuesError>)
    ensures
        match r {
            Ok((id, b)) => spec_predicate_row(*c) == Ok::<_, ValuesError>((id, b@)),
            Err(e) => spec_predicate_row(*c) == Err::<(u64, Seq<u8>), ValuesError>(e),
        },
{
    if c.columns.len() != 2 {
        return Err(ValuesError::UnexpectedColumns);
    }
    match (&c.columns[0], &c.columns[1]) {
        (JsonValue::Number(n), JsonValue::String(s)) => match n.as_u64() {
            None => Err(ValuesError::InvalidNumber),
            Some(id) => match blob_bytes(s) {
                None => Err(ValuesError::InvalidBlob),
                Some(b) => Ok((id, b)),
            },
        },
        _ => Err(ValuesError::UnexpectedColumns),
    }
}

/// An error in a prefix of the salt rows is the error of all of them.
proof fn lemma_salts_err(rows: Seq<Columns>, k: int)
    requires
        0 <= k <= rows.len(),
        spec_salts(rows.take(k)) is Err,
    ensures
        spec_salts(rows) == spec_salts(rows.take(k)),
    decreases rows.len(),
{
    if k == rows.len() {
        assert(rows.take(k) =~= rows);
    } else {
        assert(rows.drop_last().take(k) =~= rows.take(k));
        lemma_salts_err(rows.drop_last(), k);
    }
}

/// An error in a prefix of the predicate rows is the error of all of them.
proof fn lemma_groups_err(rows: Seq<Columns>, k: int)
    requires
        0 <= k <= rows.len(),
        spec_groups(rows.take(k)) is Err,
    ensures
        spec_groups(rows) == spec_groups(rows.take(k)),
    decreases rows.len(),
{
    if k == rows.len() {
        assert(rows.take(k) =~= rows);
    } else {
        assert(rows.drop_last().take(k) =~= rows.take(k));
        lemma_groups_err(rows.drop_last(), k);
    }
}

/// An error for a prefix of the groups is the error for all of them.
proof fn lemma_attach_err(gs: Seq<(u64, Seq<Seq<u8>>)>, salts: Seq<(u64, Seq<u8>)>, k: int)
    requires
        0 <= k <= gs.len(),
        spec_attach_salts(gs.take(k), salts) is Err,
    ensures
        spec_attach_salts(gs, salts) == spec_attach_salts(gs.take(k), salts),
    decreases gs.len(),
{
    if k == gs.len() {
        assert(gs.take(k) =~= gs);
    } else {
        assert(gs.drop_last().take(k) =~= gs.take(k));
        lemma_attach_err(gs.drop_last(), salts, k);
    }
}

/// `group_pos` is the first index whose id is at least `id`.
proof fn lemma_group_pos(gs: Seq<(u64, Seq<Seq<u8>>)>, id: u64)
    ensures
        0 <= group_pos(gs, id) <= gs.len(),
        forall|k: int| 0 <= k < group_pos(gs, id) ==> gs[k].0 < id,
        group_pos(gs, id) < gs.len() ==> gs[group_pos(gs, id)].0 >= id,
    decreases gs.len(),
{
    if gs.len() > 0 && gs[0].0 < id {
        lemma_group_pos(gs.drop_first(), id);
        assert forall|k: int| 0 <= k < group_pos(gs, id) implies gs[k].0 < id by {
            if k > 0 {
                assert(gs[k] == gs.drop_first()[k - 1]);
            }
        }
    }
}

/// Whether contract `id` has a salt among `salts`.
fn salt_index(salts: &Vec<(u64, [u8; 32])>, id: u64) -> (r: Option<usize>)
    ensures
        match r {
            Some(k) => k < salts@.len() && salts@[k as int].0 == id && find_salt(
                salts_view(salts@),
                id,
            ) == Some(salts@[k as int].1@),
            None => !has_id(salts_view(salts@), id) && find_salt(salts_view(salts@), id) is None,
        },
{
    let mut k: usize = 0;
    while k < salts.len()
        invariant
            k <= salts@.len(),
            forall|j: int| 0 <= j < k ==> salts@[j].0 != id,
        decreases salts@.len() - k,
    {
        if salts[k].0 == id {
            proof {
                lemma_find_salt_first(salts_view(salts@), id, k as int);
            }
            return Some(k);
        }
        k = k + 1;
    }
    proof {
        lemma_find_salt_none(salts_view(salts@), id);
    }
    None
}

proof fn lemma_find_salt_first(salts: Seq<(u64, Seq<u8>)>, id: u64, k: int)
    requires
        0 <= k < salts.len(),
        salts[k].0 == id,
        forall|j: int| 0 <= j < k ==> salts[j].0 != id,
    ensures
        find_salt(salts, id) == Some(salts[k].1),
    decreases k,
{
    if k > 0 {
        lemma_find_salt_first(salts.drop_first(), id, k - 1);
    }
}

proof fn lemma_find_salt_none(salts: Seq<(u64, Seq<u8>)>, id: u64)
    requires
        forall|j: int| 0 <= j < salts.len() ==> salts[j].0 != id,
    ensures
        find_salt(salts, id) is None,
        !has_id(salts, id),
    decreases salts.len(),
{
    if salts.len() > 0 {
        lemma_find_salt_none(salts.drop_first(), id);
    }
}

/// Reads the salt rows.
fn salt_rows(rows: &Vec<Columns>) -> (r: Result<Vec<(u64, [u8; 32])>, ValuesError>)
    ensures
        match r {
            Ok(v) => spec_salts(rows@) == Ok::<_, ValuesError>(salts_view(v@)),
            Err(e) => spec_salts(rows@) == Err::<Seq<(u64, Seq<u8>)>, ValuesError>(e),
        },
{
    let mut out: Vec<(u64, [u8; 32])> = Vec::new();
    let mut i: usize = 0;
    assert(rows@.take(0) =~= Seq::<Columns>::empty());
    assert(salts_view(out@) =~= Seq::<(u64, Seq<u8>)>::empty());
    while i < rows.len()
        invariant
            i <= rows@.len(),
            spec_salts(rows@.take(i as int)) == Ok::<_, ValuesError>(salts_view(out@)),
        decreases rows@.len() - i,
    {
        assert(rows@.take(i + 1).drop_last() =~= rows@.take(i as int));
        assert(rows@.take(i + 1).last() == rows@[i as int]);
        match salt_row(&rows[i]) {
            Ok((id, h)) => {
                match salt_index(&out, id) {
                    Some(k) => {
                        proof {
                            assert(salts_view(out@)[k as int].0 == id);
                            assert(has_id(salts_view(out@), id));
                            lemma_salts_err(rows@, (i + 1) as int);
                        }
                        return Err(ValuesError::DuplicateContractId);
                    },
                    None => {},
                }
                let ghost prev = out@;
                out.push((id, h));
                assert(salts_view(out@) =~= salts_view(prev).push((id, h@)));
            },
            Err(e) => {
                proof {
                    lemma_salts_err(rows@, (i + 1) as int);
                }
                return Err(e);
            },
        }
        i = i + 1;
    }
    assert(rows@.take(rows@.len() as int) =~= rows@);
    Ok(out)
}

/// Adds a predicate of contract `id` to the groups.
fn add_to_group(groups: &mut Vec<(u64, Vec<Vec<u8>>)>, id: u64, b: Vec<u8>)
    ensures
        groups_view(final(groups)@) == spec_add_to_group(groups_view(old(groups)@), id, b@),
{
    let ghost gv = groups_view(groups@);
    proof {
        lemma_group_pos(gv, id);
    }
    let mut j: usize = 0;
    while j < groups.len() && groups[j].0 < id
        invariant
            j <= groups@.len(),
            groups_view(groups@) == gv,
            forall|k: int| 0 <= k < j ==> groups@[k].0 < id,
            0 <= group_pos(gv, id) <= gv.len(),
            forall|k: int| 0 <= k < group_pos(gv, id) ==> gv[k].0 < id,
            group_pos(gv, id) < gv.len() ==> gv[group_pos(gv, id)].0 >= id,
        decreases groups@.len() - j,
    {
        j = j + 1;
    }
    proof {
        let p = group_pos(gv, id);
        assert(gv.len() == groups@.len());
        if j < p {
            assert(gv[j as int].0 == groups@[j as int].0);
        }
        if p < j {
            assert(gv[p].0 == groups@[p].0);
        }
        assert(j == p);
    }
    if j < groups.len() && groups[j].0 == id {
        let (gid, mut preds) = groups.remove(j);
        let ghost pv = blobs_view(preds@);
        preds.push(b);
        assert(blobs_view(preds@) =~= pv.push(b@));
        groups.insert(j, (gid, preds));
        assert(groups_view(groups@) =~= gv.update(j as int, (id, gv[j as int].1.push(b@))));
    } else {
        let mut preds: Vec<Vec<u8>> = Vec::new();
        preds.push(b);
        assert(blobs_view(preds@) =~= seq![b@]);
        groups.insert(j, (id, preds));
        assert(groups_view(groups@) =~= gv.insert(j as int, (id, seq![b@])));
    }
}

/// Reads the predicate rows into groups.
fn group_rows(rows: &Vec<Columns>) -> (r: Result<Vec<(u64, Vec<Vec<u8>>)>, ValuesError>)
    ensures
        match r {
            Ok(v) => spec_groups(rows@) == Ok::<_, ValuesError>(groups_view(v@)),
            Err(e) => spec_groups(rows@) == Err::<Seq<(u64, Seq<Seq<u8>>)>, ValuesError>(e),
        },
{
    let mut out: Vec<(u64, Vec<Vec<u8>>)> = Vec::new();
    let mut i: usize = 0;
    assert(rows@.take(0) =~= Seq::<Columns>::empty());
    assert(groups_view(out@) =~= Seq::<(u64, Seq<Seq<u8>>)>::empty());
    while i < rows.len()
        invariant
            i <= rows@.len(),
            spec_groups(rows@.take(i as int)) == Ok::<_, ValuesError>(groups_view(out@)),
        decreases rows@.len() - i,
    {
        assert(rows@.take(i + 1).drop_last() =~= rows@.take(i as int));
        assert(rows@.take(i + 1).last() == rows@[i as int]);
        match predicate_row(&rows[i]) {
            Ok((id, b)) => {
                add_to_group(&mut out, id, b);
            },
            Err(e) => {
                proof {
                    lemma_groups_err(rows@, (i + 1) as int);
                }
                return Err(e);
            },
        }
        i = i + 1;
    }
    assert(rows@.take(rows@.len() as int) =~= rows@);
    Ok(out)
}

/// Reads contracts from the results of two queries: the salt of each
/// contract id (an id and a salt blob per row) and the predicates (an id and
/// a predicate blob per row). The contracts come in ascending id order, each
/// with its predicates in row order. Two empty results mean no contracts.
pub fn list_contracts(queries: QueryValues) -> (r: Result<Vec<ContractRows>, ValuesError>)
    ensures
        match r {
            Ok(v) => spec_list_contracts(queries) == Ok::<_, ValuesError>(contracts_view(v@)),
            Err(e) => spec_list_contracts(queries) == Err::<
                Seq<(u64, Seq<u8>, Seq<Seq<u8>>)>,
                ValuesError,
            >(e),
        },
{
    if queries.queries.len() != 2 {
        return Err(ValuesError::UnexpectedQueries);
    }
    let (salt_rs, pred_rs) = match (&queries.queries[0], &queries.queries[1]) {
        (None, None) => {
            let v: Vec<ContractRows> = Vec::new();
            assert(contracts_view(v@) =~= Seq::<(u64, Seq<u8>, Seq<Seq<u8>>)>::empty());
            return Ok(v);
        },
        (Some(a), Some(b)) => (&a.rows, &b.rows),
        _ => {
            return Err(ValuesError::UnexpectedQueries);
        },
    };
    if salt_rs.len() == 0 || pred_rs.len() == 0 {
        return Err(ValuesError::NoRows);
    }
    let salts = salt_rows(salt_rs)?;
    let mut groups = group_rows(pred_rs)?;
    let ghost gv = groups_view(groups@);
    let ghost sv = salts_view(salts@);
    let mut out: Vec<ContractRows> = Vec::new();
    let mut i: usize = 0;
    let n = groups.len();
    assert(gv.take(0) =~= Seq::<(u64, Seq<Seq<u8>>)>::empty());
    assert(contracts_view(out@) =~= Seq::<(u64, Seq<u8>, Seq<Seq<u8>>)>::empty());
    while i < n
        invariant
            n == gv.len(),
            i <= n,
            groups@.len() == n - i,
            forall|k: int| 0 <= k < n - i ==> groups_view(groups@)[k] == gv[k + i],
            sv == salts_view(salts@),
            spec_list_contracts(queries) == spec_attach_salts(gv, sv),
            spec_attach_salts(gv.take(i as int), sv) == Ok::<_, ValuesError>(contracts_view(out@)),
        decreases n - i,
    {
        assert(gv.take(i + 1).drop_last() =~= gv.take(i as int));
        assert(gv.take(i + 1).last() == gv[i as int]);
        let ghost graw = groups@;
        let (id, preds) = groups.remove(0);
        assert(groups_view(graw)[0] == gv[i as int]);
        assert((id, blobs_view(preds@)) == gv[i as int]);
        assert forall|k: int| 0 <= k < n - (i + 1) implies groups_view(groups@)[k] == gv[k + i + 1] by {
            assert(groups@[k] == graw[k + 1]);
            assert(groups_view(graw)[k + 1] == gv[k + 1 + i]);
        }
        match salt_index(&salts, id) {
            None => {
                proof {
                    lemma_attach_err(gv, sv, (i + 1) as int);
                }
                return Err(ValuesError::MissingSalt);
            },
            Some(k) => {
                let salt = salts[k].1;
                let ghost prev = contracts_view(out@);
                let c = ContractRows { contract_id: id, salt, predicates: preds };
                out.push(c);
                assert(contracts_view(out@) =~= prev.push((id, salt@, blobs_view(preds@))));
            },
        }
        i = i + 1;
    }
    assert(gv.take(n as int) =~= gv);
    Ok(out)
}

/// A signed solution as a plain value: the bytes of the solution and the
/// bytes of its signature.
pub type Signed = (Seq<u8>, Seq<u8>);

/// A signed solution as stored: the bytes of the solution and of its
/// signature.
pub type SignedBlobs = (Vec<u8>, Vec<u8>);

/// The view of a signed solution as stored.
pub open spec fn signed_view(s: SignedBlobs) -> Signed {
    (s.0@, s.1@)
}

/// Views of signed solutions as stored.
pub open spec fn signed_views(v: Seq<SignedBlobs>) -> Seq<Signed> {
    v.map_values(|s: SignedBlobs| signed_view(s))
}

/// A block as stored: its batch id, its number, its timestamp and its signed
/// solutions in order.
#[derive(Debug, PartialEq, Eq)]
pub struct BlockRows {
    pub batch_id: u64,
    pub number: u64,
    pub timestamp_secs: u64,
    pub timestamp_nanos: u32,
    pub solutions: Vec<SignedBlobs>,
}

/// The view of a block as stored: batch id, number, seconds, nanoseconds and
/// solutions.
pub type BlockView = (u64, u64, u64, u32, Seq<Signed>);

/// The view of a block as stored.
pub open spec fn block_view(b: BlockRows) -> BlockView {
    (b.batch_id, b.number, b.timestamp_secs, b.timestamp_nanos, signed_views(b.solutions@))
}

/// Views of blocks as stored.
pub open spec fn blocks_view(v: Seq<BlockRows>) -> Seq<BlockView> {
    v.map_values(|b: BlockRows| block_view(b))
}

/// A block row: batch id, solution blob, signature blob, seconds and
/// nanoseconds of the time the block was made; the solution is kept with its
/// signature. Blocks are numbered from zero, batches from one.
pub open spec fn spec_block_row(c: Seq<JsonValue>) -> Result<(u64, Signed, u64, u32), ValuesError> {
    if c.len() == 5 && c[0] is Number && c[1] is String && c[2] is String && c[3] is Number
        && c[4] is Number {
        match (
            c[0]->Number_0.spec_as_u64(),
            c[3]->Number_0.spec_as_u64(),
            c[4]->Number_0.spec_as_u64(),
        ) {
            (Some(batch_id), Some(secs), Some(nanos)) => match (
                spec_blob_bytes(c[1]->String_0@),
                spec_blob_bytes(c[2]->String_0@),
            ) {
                (Some(sol), Some(sig)) => if batch_id == 0 {
                    Err(ValuesError::ZeroBatchId)
                } else {
                    Ok((batch_id, (sol, sig), secs, nanos as u32))
                },
                _ => Err(ValuesError::InvalidBlob),
            },
            _ => Err(ValuesError::InvalidNumber),
        }
    } else {
        Err(ValuesError::UnexpectedColumns)
    }
}

/// Index of the first block whose batch id is at least `id`.
pub open spec fn block_pos(bs: Seq<BlockView>, id: u64) -> int
    decreases bs.len(),
{
    if bs.len() == 0 {
        0
    } else if bs[0].0 >= id {
        0
    } else {
        1 + block_pos(bs.drop_first(), id)
    }
}

/// Adds a solution row to blocks kept in ascending batch order. A new block
/// takes its number and time from its first row.
pub open spec fn spec_add_to_block(
    bs: Seq<BlockView>,
    row: (u64, Signed, u64, u32),
) -> Seq<BlockView> {
    let (id, sol, secs, nanos) = row;
    let j = block_pos(bs, id);
    if j < bs.len() && bs[j].0 == id {
        bs.update(j, (id, bs[j].1, bs[j].2, bs[j].3, bs[j].4.push(sol)))
    } else {
        bs.insert(j, (id, (id - 1) as u64, secs, nanos, seq![sol]))
    }
}

/// The blocks after adding one more solution row, or why the row is refused.
pub open spec fn spec_map_solution_to_block(bs: Seq<BlockView>, c: Seq<JsonValue>) -> Result<
    Seq<BlockView>,
    ValuesError,
> {
    match spec_block_row(c) {
        Err(e) => Err(e),
        Ok(row) => Ok(spec_add_to_block(bs, row)),
    }
}

proof fn lemma_block_pos(bs: Seq<BlockView>, id: u64)
    ensures
        0 <= block_pos(bs, id) <= bs.len(),
        forall|k: int| 0 <= k < block_pos(bs, id) ==> bs[k].0 < id,
        block_pos(bs, id) < bs.len() ==> bs[block_pos(bs, id)].0 >= id,
    decreases bs.len(),
{
    if bs.len() > 0 && bs[0].0 < id {
        lemma_block_pos(bs.drop_first(), id);
        assert forall|k: int| 0 <= k < block_pos(bs, id) implies bs[k].0 < id by {
            if k > 0 {
                assert(bs[k] == bs.drop_first()[k - 1]);
            }
        }
    }
}

/// Adds one solution row (batch id, solution, signature, seconds,
/// nanoseconds) to the blocks read so far, kept in ascending batch order: the
/// row's solution, with its signature, joins the block of its batch, which
/// keeps its number and time, or starts a new block numbered one below its
/// batch id with the row's time; other blocks are untouched.
pub fn map_solution_to_block(blocks: Vec<BlockRows>, columns: &Vec<JsonValue>) -> (r: Result<
    Vec<BlockRows>,
    ValuesError,
>)
    requires
        batches_ascend(blocks_view(blocks@)),
    ensures
        r matches Ok(v) ==> {
            let (b, sol, secs, nanos) = spec_block_row(columns@)->Ok_0;
            let m = blocks_map(blocks_view(blocks@));
            &&& b != 0
            &&& batches_ascend(blocks_view(v@))
            &&& blocks_numbered(blocks_view(blocks@)) ==> blocks_numbered(blocks_view(v@))
            &&& blocks_map(blocks_view(v@)) == (if m.contains_key(b) {
                m.insert(b, (m[b].0, m[b].1, m[b].2, m[b].3.push(sol)))
            } else {
                m.insert(b, ((b - 1) as u64, secs, nanos, seq![sol]))
            })
        },
        match r {
            Ok(v) => spec_map_solution_to_block(blocks_view(blocks@), columns@) == Ok::<
                _,
                ValuesError,
            >(blocks_view(v@)),
            Err(e) => spec_map_solution_to_block(blocks_view(blocks@), columns@) == Err::<
                Seq<BlockView>,
                ValuesError,
            >(e),
        },
{
    let mut blocks = blocks;
    if columns.len() != 5 {
        return Err(ValuesError::UnexpectedColumns);
    }
    let (id, sol_text, sig_text, secs, nanos) = match (
        &columns[0],
        &columns[1],
        &columns[2],
        &columns[3],
        &columns[4],
    ) {
        (
            JsonValue::Number(b),
            JsonValue::String(t),
            JsonValue::String(g),
            JsonValue::Number(s),
            JsonValue::Number(n),
        ) => {
            match (b.as_u64(), s.as_u64(), n.as_u64()) {
                (Some(b), Some(s), Some(n)) => (b, t, g, s, n),
                _ => {
                    return Err(ValuesError::InvalidNumber);
                },
            }
        },
        _ => {
            return Err(ValuesError::UnexpectedColumns);
        },
    };
    let sol = match blob_bytes(sol_text) {
        Some(b) => b,
        None => {
            return Err(ValuesError::InvalidBlob);
        },
    };
    let sig = match blob_bytes(sig_text) {
        Some(b) => b,
        None => {
            return Err(ValuesError::InvalidBlob);
        },
    };
    if id == 0 {
        return Err(ValuesError::ZeroBatchId);
    }
    let nanos32 = nanos as u32;
    let ghost bv = blocks_view(blocks@);
    proof {
        lemma_block_pos(bv, id);
        lemma_block_row_step(bv, columns@);
        lemma_add_to_block_keeps_order(bv, spec_block_row(columns@)->Ok_0);
    }
    let mut j: usize = 0;
    while j < blocks.len() && blocks[j].batch_id < id
        invariant
            j <= blocks@.len(),
            blocks_view(blocks@) == bv,
            forall|k: int| 0 <= k < j ==> blocks@[k].batch_id < id,
            0 <= block_pos(bv, id) <= bv.len(),
            forall|k: int| 0 <= k < block_pos(bv, id) ==> bv[k].0 < id,
            block_pos(bv, id) < bv.len() ==> bv[block_pos(bv, id)].0 >= id,
        decreases blocks@.len() - j,
    {
        j = j + 1;
    }
    proof {
        let p = block_pos(bv, id);
        assert(bv.len() == blocks@.len());
        if j < p {
            assert(bv[j as int].0 == blocks@[j as int].batch_id);
        }
        if p < j {
            assert(bv[p].0 == blocks@[p].batch_id);
        }
        assert(j == p);
    }
    if j < blocks.len() && blocks[j].batch_id == id {
        let mut b = blocks.remove(j);
        let ghost pv = signed_views(b.solutions@);
        let ghost entry = (sol@, sig@);
        b.solutions.push((sol, sig));
        assert(signed_views(b.solutions@) =~= pv.push(entry));
        blocks.insert(j, b);
        assert(blocks_view(blocks@) =~= bv.update(
            j as int,
            (id, bv[j as int].1, bv[j as int].2, bv[j as int].3, bv[j as int].4.push(entry)),
        ));
    } else {
        let ghost entry = (sol@, sig@);
        let mut sols: Vec<SignedBlobs> = Vec::new();
        sols.push((sol, sig));
        assert(signed_views(sols@) =~= seq![entry]);
        let b = BlockRows {
            batch_id: id,
            number: id - 1,
            timestamp_secs: secs,
            timestamp_nanos: nanos32,
            solutions: sols,
        };
        blocks.insert(j, b);
        assert(blocks_view(blocks@) =~= bv.insert(
            j as int,
            (id, (id - 1) as u64, secs, nanos as u32, seq![entry]),
        ));
    }
    Ok(blocks)
}

/// The blocks of the block rows, in ascending batch order.
pub open spec fn spec_fold_blocks(rows: Seq<Columns>) -> Result<Seq<BlockView>, ValuesError>
    decreases rows.len(),
{
    if rows.len() == 0 {
        Ok(Seq::empty())
    } else {
        match spec_fold_blocks(rows.drop_last()) {
            Err(e) => Err(e),
            Ok(bs) => spec_map_solution_to_block(bs, cols(rows.last())),
        }
    }
}

proof fn lemma_fold_blocks_err(rows: Seq<Columns>, k: int)
    requires
        0 <= k <= rows.len(),
        spec_fold_blocks(rows.take(k)) is Err,
    ensures
        spec_fold_blocks(rows) == spec_fold_blocks(rows.take(k)),
    decreases rows.len(),
{
    if k == rows.len() {
        assert(rows.take(k) =~= rows);
    } else {
        assert(rows.drop_last().take(k) =~= rows.take(k));
        lemma_fold_blocks_err(rows.drop_last(), k);
    }
}

/// The blocks that [`list_blocks`] reads from the results of one query.
pub open spec fn spec_list_blocks(queries: QueryValues) -> Result<Seq<BlockView>, ValuesError> {
    let qs = queries.queries@;
    if qs.len() == 1 && qs[0] is None {
        Ok(Seq::empty())
    } else if qs.len() == 1 && qs[0] is Some {
        if qs[0]->0.rows@.len() == 0 {
            Err(ValuesError::NoRows)
        } else {
            spec_fold_blocks(qs[0]->0.rows@)
        }
    } else {
        Err(ValuesError::UnexpectedQueries)
    }
}

/// Reads the blocks of one query, one solution per row, in ascending batch
/// order.
pub fn list_blocks(queries: QueryValues) -> (r: Result<Vec<BlockRows>, ValuesError>)
    ensures
        match r {
            Ok(v) => spec_list_blocks(queries) == Ok::<_, ValuesError>(blocks_view(v@)),
            Err(e) => spec_list_blocks(queries) == Err::<Seq<BlockView>, ValuesError>(e),
        },
{
    if queries.queries.len() != 1 {
        return Err(ValuesError::UnexpectedQueries);
    }
    let rows = match &queries.queries[0] {
        None => {
            let v: Vec<BlockRows> = Vec::new();
            assert(blocks_view(v@) =~= Seq::<BlockView>::empty());
            return Ok(v);
        },
        Some(rows) => &rows.rows,
    };
    if rows.len() == 0 {
        return Err(ValuesError::NoRows);
    }
    let mut out: Vec<BlockRows> = Vec::new();
    let mut i: usize = 0;
    assert(rows@.take(0) =~= Seq::<Columns>::empty());
    assert(blocks_view(out@) =~= Seq::<BlockView>::empty());
    while i < rows.len()
        invariant
            i <= rows@.len(),
            queries.queries@.len() == 1,
            queries.queries@[0] is Some,
            rows@ == queries.queries@[0]->0.rows@,
            spec_fold_blocks(rows@.take(i as int)) == Ok::<_, ValuesError>(blocks_view(out@)),
            batches_ascend(blocks_view(out@)),
            blocks_numbered(blocks_view(out@)),
        decreases rows@.len() - i,
    {
        assert(rows@.take(i + 1).drop_last() =~= rows@.take(i as int));
        assert(rows@.take(i + 1).last() == rows@[i as int]);
        match map_solution_to_block(out, &rows[i].columns) {
            Ok(v) => {
                out = v;
            },
            Err(e) => {
                proof {
                    lemma_fold_blocks_err(rows@, (i + 1) as int);
                }
                return Err(e);
            },
        }
        i = i + 1;
    }
    assert(rows@.take(rows@.len() as int) =~= rows@);
    Ok(out)
}

/// The latest block, read from the rows of the latest batch: the last of
/// the blocks those rows make, if any.
pub open spec fn spec_latest_block(queries: QueryValues) -> Result<Option<BlockView>, ValuesError> {
    match spec_list_blocks(queries) {
        Err(e) => Err(e),
        Ok(bs) => if bs.len() == 0 {
            Ok(None)
        } else {
            Ok(Some(bs.last()))
        },
    }
}

/// Reads the latest block from the rows of the latest batch.
pub fn latest_block(queries: QueryValues) -> (r: Result<Option<BlockRows>, ValuesError>)
    ensures
        match r {
            Ok(Some(b)) => spec_latest_block(queries) == Ok::<_, ValuesError>(Some(block_view(b))),
            Ok(None) => spec_latest_block(queries) == Ok::<Option<BlockView>, ValuesError>(None),
            Err(e) => spec_latest_block(queries) == Err::<Option<BlockView>, ValuesError>(e),
        },
{
    let mut blocks = list_blocks(queries)?;
    let ghost bv = blocks_view(blocks@);
    match blocks.pop() {
        Some(b) => {
            assert(block_view(b) == bv.last());
            Ok(Some(b))
        },
        None => Ok(None),
    }
}

/// The words that [`map_execute_to_values`] reads from a response to a read
/// followed by a write.
pub open spec fn spec_execute_to_values(value: Seq<(String, JsonValue)>) -> Result<
    Seq<i64>,
    ValuesError,
> {
    match spec_lookup(value, "results"@) {
        None => Err(ValuesError::MissingResults),
        Some(JsonValue::Array(results)) => if results@.len() == 2 && results@[0] is Object {
            match spec_lookup(results@[0]->Object_0@, "values"@) {
                Some(JsonValue::Array(rows)) => if rows@.len() == 1 && rows@[0] is Array {
                    let columns = rows@[0]->Array_0@;
                    if columns.len() == 1 && columns[0] is String {
                        match spec_decode_words(columns[0]->String_0@) {
                            Some(w) => Ok(w),
                            None => Err(ValuesError::InvalidBlob),
                        }
                    } else {
                        Err(ValuesError::UnexpectedColumns)
                    }
                } else {
                    Err(ValuesError::UnexpectedRows)
                },
                _ => Ok(Seq::empty()),
            }
        } else {
            Err(ValuesError::InvalidResults)
        },
        Some(_) => Err(ValuesError::MissingResults),
    }
}

/// Reads the words that the read of a read-then-write request returned: the
/// results must be two, the first holding at most one row of one words blob.
/// No rows means no words.
pub fn map_execute_to_values(value: Vec<(String, JsonValue)>) -> (r: Result<Vec<i64>, ValuesError>)
    ensures
        match r {
            Ok(w) => spec_execute_to_values(value@) == Ok::<_, ValuesError>(w@),
            Err(e) => spec_execute_to_values(value@) == Err::<Seq<i64>, ValuesError>(e),
        },
{
    let mut value = value;
    proof {
        reveal_strlit("results");
        reveal_strlit("values");
    }
    let results = match take_entry(&mut value, "results") {
        None => {
            return Err(ValuesError::MissingResults);
        },
        Some(r) => r,
    };
    let results = match results {
        JsonValue::Array(r) => r,
        _ => {
            return Err(ValuesError::MissingResults);
        },
    };
    if results.len() != 2 {
        return Err(ValuesError::InvalidResults);
    }
    let first = match &results[0] {
        JsonValue::Object(o) => o,
        _ => {
            return Err(ValuesError::InvalidResults);
        },
    };
    let rows = match lookup(first, "values") {
        Some(JsonValue::Array(rows)) => rows,
        _ => {
            return Ok(Vec::new());
        },
    };
    if rows.len() != 1 {
        return Err(ValuesError::UnexpectedRows);
    }
    let columns = match &rows[0] {
        JsonValue::Array(c) => c,
        _ => {
            return Err(ValuesError::UnexpectedRows);
        },
    };
    if columns.len() != 1 {
        return Err(ValuesError::UnexpectedColumns);
    }
    match &columns[0] {
        JsonValue::String(t) => match decode_words(t) {
            Some(w) => Ok(w),
            None => Err(ValuesError::InvalidBlob),
        },
        _ => Err(ValuesError::UnexpectedColumns),
    }
}

/// The words of one read result: none where it returned no rows, else one
/// row of one words blob.
pub open spec fn spec_words_query(q: Option<Rows>) -> Result<Seq<i64>, ValuesError> {
    match q {
        None => Ok(Seq::empty()),
        Some(rows) => if rows.rows@.len() != 1 {
            Err(ValuesError::UnexpectedRows)
        } else if cols(rows.rows@[0]).len() == 1 && cols(rows.rows@[0])[0] is String {
            match spec_decode_words(cols(rows.rows@[0])[0]->String_0@) {
                Some(w) => Ok(w),
                None => Err(ValuesError::InvalidBlob),
            }
        } else {
            Err(ValuesError::UnexpectedColumns)
        },
    }
}

/// The words of the reads among alternating read and write results: the
/// results at even positions, in order.
pub open spec fn spec_multiple_values(qs: Seq<Option<Rows>>) -> Result<Seq<Seq<i64>>, ValuesError>
    decreases qs.len(),
{
    if qs.len() == 0 {
        Ok(Seq::empty())
    } else {
        match spec_multiple_values(qs.drop_last()) {
            Err(e) => Err(e),
            Ok(acc) => if (qs.len() - 1) % 2 == 0 {
                match spec_words_query(qs.last()) {
                    Err(e) => Err(e),
                    Ok(w) => Ok(acc.push(w)),
                }
            } else {
                Ok(acc)
            },
        }
    }
}

/// The values that a batch of reads and writes gives back are those of its
/// reads, which sit at the even positions: one entry per read, entry `k`
/// the words of the result at position `2k`; the write results at odd
/// positions give nothing back and are never read, and the batch is read
/// exactly where every read result can be.
pub proof fn lemma_multiple_values_reads(qs: Seq<Option<Rows>>)
    ensures
        (spec_multiple_values(qs) is Ok) == (forall|k: int|
            0 <= k && 2 * k < qs.len() ==> #[trigger] spec_words_query(qs[2 * k]) is Ok),
        spec_multiple_values(qs) matches Ok(v) ==> {
            &&& v.len() == (qs.len() + 1) / 2
            &&& forall|k: int| 0 <= k < v.len() ==> spec_words_query(qs[2 * k]) == Ok::<_, ValuesError>(#[trigger] v[k])
        },
    decreases qs.len(),
{
    if qs.len() > 0 {
        let d = qs.drop_last();
        lemma_multiple_values_reads(d);
        let m = qs.len() - 1;
        assert forall|k: int| 0 <= k && 2 * k < d.len() implies #[trigger] spec_words_query(qs[2 * k])
            == spec_words_query(d[2 * k]) by {
            assert(qs[2 * k] == d[2 * k]);
        }
        if m % 2 == 0 {
            if spec_multiple_values(d) is Ok && spec_words_query(qs[m]) is Err {
                assert(spec_words_query(qs[2 * (m / 2)]) is Err);
            }
            if spec_multiple_values(d) is Err {
                let k = choose|k: int| 0 <= k && 2 * k < d.len() && !(#[trigger] spec_words_query(d[2 * k]) is Ok);
                assert(spec_words_query(qs[2 * k]) is Err);
            }
            if spec_multiple_values(qs) is Ok {
                let v = spec_multiple_values(qs)->Ok_0;
                let acc = spec_multiple_values(d)->Ok_0;
                assert forall|k: int| 0 <= k < v.len() implies spec_words_query(qs[2 * k]) == Ok::<_, ValuesError>(#[trigger] v[k]) by {
                    if k < acc.len() {
                        assert(v[k] == acc[k]);
                    } else {
                        assert(k == m / 2);
                    }
                }
            }
        } else {
            if spec_multiple_values(d) is Err {
                let k = choose|k: int| 0 <= k && 2 * k < d.len() && !(#[trigger] spec_words_query(d[2 * k]) is Ok);
                assert(spec_words_query(qs[2 * k]) is Err);
            }
            assert forall|k: int| 0 <= k && 2 * k < qs.len() implies #[trigger] spec_words_query(qs[2 * k])
                == spec_words_query(d[2 * k]) by {
                assert(2 * k < d.len());
                assert(qs[2 * k] == d[2 * k]);
            }
        }
    }
}

proof fn lemma_multiple_values_err(qs: Seq<Option<Rows>>, k: int)
    requires
        0 <= k <= qs.len(),
        spec_multiple_values(qs.take(k)) is Err,
    ensures
        spec_multiple_values(qs) == spec_multiple_values(qs.take(k)),
    decreases qs.len(),
{
    if k == qs.len() {
        assert(qs.take(k) =~= qs);
    } else {
        assert(qs.drop_last().take(k) =~= qs.take(k));
        lemma_multiple_values_err(qs.drop_last(), k);
    }
}

/// Views of sequences of words.
pub open spec fn words_view(v: Seq<Vec<i64>>) -> Seq<Seq<i64>> {
    v.map_values(|w: Vec<i64>| w@)
}

/// Reads the words of one read result.
fn words_query(q: &Option<Rows>) -> (r: Result<Vec<i64>, ValuesError>)
    ensures
        match r {
            Ok(w) => spec_words_query(*q) == Ok::<_, ValuesError>(w@),
            Err(e) => spec_words_query(*q) == Err::<Seq<i64>, ValuesError>(e),
        },
{
    match q {
        None => Ok(Vec::new()),
        Some(rows) => {
            if rows.rows.len() != 1 {
                return Err(ValuesError::UnexpectedRows);
            }
            let c = &rows.rows[0].columns;
            if c.len() != 1 {
                return Err(ValuesError::UnexpectedColumns);
            }
            match &c[0] {
                JsonValue::String(t) => match decode_words(t) {
                    Some(w) => Ok(w),
                    None => Err(ValuesError::InvalidBlob),
                },
                _ => Err(ValuesError::UnexpectedColumns),
            }
        },
    }
}

/// Reads the words that each read of a batch of read-then-write pairs
/// returned. Results at odd positions are those of the writes and are
/// skipped.
pub fn map_execute_to_multiple_values(queries: QueryValues) -> (r: Result<
    Vec<Vec<i64>>,
    ValuesError,
>)
    ensures
        match r {
            Ok(v) => spec_multiple_values(queries.queries@) == Ok::<_, ValuesError>(
                words_view(v@),
            ),
            Err(e) => spec_multiple_values(queries.queries@) == Err::<Seq<Seq<i64>>, ValuesError>(
                e,
            ),
        },
{
    let qs = &queries.queries;
    let mut out: Vec<Vec<i64>> = Vec::new();
    let mut i: usize = 0;
    assert(qs@.take(0) =~= Seq::<Option<Rows>>::empty());
    assert(words_view(out@) =~= Seq::<Seq<i64>>::empty());
    while i < qs.len()
        invariant
            i <= qs@.len(),
            qs@ == queries.queries@,
            spec_multiple_values(qs@.take(i as int)) == Ok::<_, ValuesError>(words_view(out@)),
        decreases qs@.len() - i,
    {
        assert(qs@.take(i + 1).drop_last() =~= qs@.take(i as int));
        assert(qs@.take(i + 1).last() == qs@[i as int]);
        if i % 2 == 0 {
            match words_query(&qs[i]) {
                Ok(w) => {
                    let ghost prev = words_view(out@);
                    out.push(w);
                    assert(words_view(out@) =~= prev.push(w@));
                },
                Err(e) => {
                    proof {
                        lemma_multiple_values_err(qs@, (i + 1) as int);
                    }
                    return Err(e);
                },
            }
        }
        i = i + 1;
    }
    assert(qs@.take(qs@.len() as int) =~= qs@);
    Ok(out)
}

/// The rows of a list of values: the values that are arrays, each taken as
/// the columns of a row; other values are dropped.
pub open spec fn spec_array_rows(vs: Seq<JsonValue>) -> Seq<Seq<JsonValue>>
    decreases vs.len(),
{
    if vs.len() == 0 {
        Seq::empty()
    } else {
        let acc = spec_array_rows(vs.drop_last());
        match vs.last() {
            JsonValue::Array(c) => acc.push(c@),
            _ => acc,
        }
    }
}

/// The rows of one query result: `None` unless it is an object with a list of
/// values.
pub open spec fn spec_query_rows(v: JsonValue) -> Option<Seq<Seq<JsonValue>>> {
    match v {
        JsonValue::Object(o) => match spec_lookup(o@, "values"@) {
            Some(JsonValue::Array(rows)) => Some(spec_array_rows(rows@)),
            _ => None,
        },
        _ => None,
    }
}

/// The query results of a response, one per query; none where the results
/// are not a list.
pub open spec fn spec_query_values(value: Seq<(String, JsonValue)>) -> Result<
    Seq<Option<Seq<Seq<JsonValue>>>>,
    ValuesError,
> {
    match spec_lookup(value, "results"@) {
        None => Err(ValuesError::MissingResults),
        Some(JsonValue::Array(qs)) => Ok(qs@.map_values(|q: JsonValue| spec_query_rows(q))),
        Some(_) => Ok(Seq::empty()),
    }
}

/// The view of a row.
pub open spec fn row_view(c: Columns) -> Seq<JsonValue> {
    c.columns@
}

/// The view of the result of one query.
pub open spec fn opt_rows_view(r: Option<Rows>) -> Option<Seq<Seq<JsonValue>>> {
    match r {
        Some(rows) => Some(rows.rows@.map_values(|c: Columns| row_view(c))),
        None => None,
    }
}

/// The view of the results of a request.
pub open spec fn query_values_view(q: QueryValues) -> Seq<Option<Seq<Seq<JsonValue>>>> {
    q.queries@.map_values(|r: Option<Rows>| opt_rows_view(r))
}

/// Takes the rows out of a list of values.
fn array_rows(vs: Vec<JsonValue>) -> (r: Vec<Columns>)
    ensures
        r@.map_values(|c: Columns| row_view(c)) == spec_array_rows(vs@),
{
    let mut vs = vs;
    let ghost all = vs@;
    let mut out: Vec<Columns> = Vec::new();
    let mut i: usize = 0;
    let n = vs.len();
    assert(all.take(0) =~= Seq::<JsonValue>::empty());
    assert(out@.map_values(|c: Columns| row_view(c)) =~= Seq::<Seq<JsonValue>>::empty());
    while i < n
        invariant
            n == all.len(),
            i <= n,
            vs@ =~= all.skip(i as int),
            out@.map_values(|c: Columns| row_view(c)) == spec_array_rows(all.take(i as int)),
        decreases n - i,
    {
        assert(all.take(i + 1).drop_last() =~= all.take(i as int));
        assert(all.take(i + 1).last() == all[i as int]);
        let v = vs.remove(0);
        assert(vs@ =~= all.skip(i + 1));
        match v {
            JsonValue::Array(c) => {
                let ghost prev = out@.map_values(|c: Columns| row_view(c));
                let ghost cv = c@;
                out.push(Columns { columns: c });
                assert(out@.map_values(|c: Columns| row_view(c)) =~= prev.push(cv));
            },
            _ => {},
        }
        i = i + 1;
    }
    assert(all.take(n as int) =~= all);
    out
}

/// Takes the rows out of one query result.
fn query_rows(v: JsonValue) -> (r: Option<Rows>)
    ensures
        match r {
            Some(rows) => spec_query_rows(v) == Some(rows.rows@.map_values(|c: Columns| row_view(c))),
            None => spec_query_rows(v) is None,
        },
{
    proof {
        reveal_strlit("values");
    }
    match v {
        JsonValue::Object(o) => {
            let mut o = o;
            match take_entry(&mut o, "values") {
                Some(JsonValue::Array(rows)) => Some(Rows { rows: array_rows(rows) }),
                _ => None,
            }
        },
        _ => None,
    }
}

/// Reads the results of a request into rows and columns: one entry per query,
/// `None` for a query without a list of values, and in each row the columns
/// as they came. Results that are not a list give no queries.
pub fn map_query_to_query_values(value: Vec<(String, JsonValue)>) -> (r: Result<
    QueryValues,
    ValuesError,
>)
    ensures
        match r {
            Ok(q) => spec_query_values(value@) == Ok::<_, ValuesError>(query_values_view(q)),
            Err(e) => spec_query_values(value@) == Err::<
                Seq<Option<Seq<Seq<JsonValue>>>>,
                ValuesError,
            >(e),
        },
{
    let mut value = value;
    proof {
        reveal_strlit("results");
    }
    let results = match take_entry(&mut value, "results") {
        None => {
            return Err(ValuesError::MissingResults);
        },
        Some(r) => r,
    };
    let mut qs = match results {
        JsonValue::Array(qs) => qs,
        _ => {
            let q = QueryValues { queries: Vec::new() };
            assert(query_values_view(q) =~= Seq::<Option<Seq<Seq<JsonValue>>>>::empty());
            return Ok(q);
        },
    };
    let ghost all = qs@;
    let n = qs.len();
    let mut out: Vec<Option<Rows>> = Vec::new();
    let mut i: usize = 0;
    assert(out@.map_values(|r: Option<Rows>| opt_rows_view(r)) =~= all.take(0).map_values(
        |q: JsonValue| spec_query_rows(q),
    ));
    while i < n
        invariant
            n == all.len(),
            i <= n,
            qs@ =~= all.skip(i as int),
            out@.map_values(|r: Option<Rows>| opt_rows_view(r)) =~= all.take(i as int).map_values(
                |q: JsonValue| spec_query_rows(q),
            ),
        decreases n - i,
    {
        let v = qs.remove(0);
        assert(v == all[i as int]);
        assert(qs@ =~= all.skip(i + 1));
        let r = query_rows(v);
        assert(opt_rows_view(r) == spec_query_rows(all[i as int]));
        let ghost prev = out@.map_values(|r: Option<Rows>| opt_rows_view(r));
        out.push(r);
        assert(out@.map_values(|r: Option<Rows>| opt_rows_view(r)) =~= prev.push(opt_rows_view(r)));
        assert(all.take(i + 1) =~= all.take(i as int).push(all[i as int]));
        assert(all.take(i + 1).map_values(|q: JsonValue| spec_query_rows(q)) =~= all.take(
            i as int,
        ).map_values(|q: JsonValue| spec_query_rows(q)).push(spec_query_rows(all[i as int])));
        i = i + 1;
    }
    assert(all.take(n as int) =~= all);
    let ghost ov = out@.map_values(|r: Option<Rows>| opt_rows_view(r));
    let q = QueryValues { queries: out };
    assert(query_values_view(q) =~= ov);
    Ok(q)
}

/// Whether the write of a read-then-write request changed exactly one row.
pub open spec fn spec_row_changed(result: Seq<(String, JsonValue)>) -> Result<(), ValuesError> {
    match spec_lookup(result, "results"@) {
        None => Err(ValuesError::MissingResults),
        Some(JsonValue::Array(results)) => if results@.len() == 2 && results@[1] is Object {
            match spec_lookup(results@[1]->Object_0@, "rows_affected"@) {
                Some(JsonValue::Number(JsonNumber::PosInt(n))) => if n == 1 {
                    Ok(())
                } else {
                    Err(ValuesError::RowNotChanged)
                },
                _ => Err(ValuesError::RowNotChanged),
            }
        } else {
            Err(ValuesError::InvalidResults)
        },
        Some(_) => Err(ValuesError::MissingResults),
    }
}

/// Checks that the write of a read-then-write request changed exactly one row.
pub fn assert_row_changed(result: &Vec<(String, JsonValue)>) -> (r: Result<(), ValuesError>)
    ensures
        r == spec_row_changed(result@),
{
    proof {
        reveal_strlit("results");
        reveal_strlit("rows_affected");
    }
    let results = match lookup(result, "results") {
        None => {
            return Err(ValuesError::MissingResults);
        },
        Some(JsonValue::Array(r)) => r,
        Some(_) => {
            return Err(ValuesError::MissingResults);
        },
    };
    if results.len() != 2 {
        return Err(ValuesError::InvalidResults);
    }
    let second = match &results[1] {
        JsonValue::Object(o) => o,
        _ => {
            return Err(ValuesError::InvalidResults);
        },
    };
    match lookup(second, "rows_affected") {
        Some(JsonValue::Number(JsonNumber::PosInt(n))) => if *n == 1 {
            Ok(())
        } else {
            Err(ValuesError::RowNotChanged)
        },
        _ => Err(ValuesError::RowNotChanged),
    }
}

/// The message of the first result that reports an error, if any.
pub open spec fn spec_first_error(results: Seq<JsonValue>) -> Option<Seq<char>>
    decreases results.len(),
{
    if results.len() == 0 {
        None
    } else {
        match results[0] {
            JsonValue::Object(o) => match spec_lookup(o@, "errors"@) {
                Some(JsonValue::String(e)) => Some(e@),
                _ => spec_first_error(results.drop_first()),
            },
            _ => spec_first_error(results.drop_first()),
        }
    }
}

/// The error that a response reports, if any: the message of the first
/// result that holds one.
pub open spec fn spec_handle_errors(result: Seq<(String, JsonValue)>) -> Option<Seq<char>> {
    match spec_lookup(result, "results"@) {
        Some(JsonValue::Array(results)) => spec_first_error(results@),
        _ => None,
    }
}

proof fn lemma_first_error_skip(results: Seq<JsonValue>, i: int)
    requires
        0 <= i < results.len(),
    ensures
        spec_first_error(results.skip(i)) == (match results[i] {
            JsonValue::Object(o) => match spec_lookup(o@, "errors"@) {
                Some(JsonValue::String(e)) => Some(e@),
                _ => spec_first_error(results.skip(i + 1)),
            },
            _ => spec_first_error(results.skip(i + 1)),
        }),
{
    assert(results.skip(i)[0] == results[i]);
    assert(results.skip(i).drop_first() =~= results.skip(i + 1));
}

/// Fails with the message of the first result that reports an error.
pub fn handle_errors(result: &Vec<(String, JsonValue)>) -> (r: Result<(), ValuesError>)
    ensures
        match r {
            Ok(()) => spec_handle_errors(result@) is None,
            Err(ValuesError::StatementFailed(m)) => spec_handle_errors(result@) == Some(m@),
            Err(_) => false,
        },
{
    proof {
        reveal_strlit("results");
        reveal_strlit("errors");
    }
    let results = match lookup(result, "results") {
        Some(JsonValue::Array(r)) => r,
        _ => {
            return Ok(());
        },
    };
    let mut i: usize = 0;
    assert(results@.skip(0) =~= results@);
    while i < results.len()
        invariant
            i <= results@.len(),
            spec_handle_errors(result@) == spec_first_error(results@.skip(i as int)),
        decreases results@.len() - i,
    {
        proof {
            lemma_first_error_skip(results@, i as int);
        }
        match &results[i] {
            JsonValue::Object(o) => match lookup(o, "errors") {
                Some(JsonValue::String(e)) => {
                    return Err(ValuesError::StatementFailed(e.clone()));
                },
                _ => {},
            },
            _ => {},
        }
        i = i + 1;
    }
    assert(results@.skip(i as int) =~= Seq::<JsonValue>::empty());
    Ok(())
}

/// The state value that a state query reads: the words of its one value, or
/// no words where it found no value.
pub open spec fn spec_state_value(queries: QueryValues) -> Result<Seq<i64>, ValuesError> {
    match spec_single_value(queries) {
        None => Ok(Seq::empty()),
        Some(JsonValue::String(t)) => match spec_decode_words(t@) {
            Some(w) => Ok(w),
            None => Err(ValuesError::InvalidBlob),
        },
        Some(_) => Err(ValuesError::UnexpectedType),
    }
}

/// A state query reads back exactly the words stored: where its one value is
/// a blob that holds the words `w`, the value read is `w`, every word of it
/// in order; where it found no value, the value read is empty.
pub proof fn lemma_state_value_reads_back(queries: QueryValues, t: String, w: Seq<i64>)
    ensures
        spec_single_value(queries) == Some(JsonValue::String(t)) && spec_decode_words(t@) == Some(w)
            ==> spec_state_value(queries) == Ok::<_, ValuesError>(w),
        spec_single_value(queries) is None ==> spec_state_value(queries) == Ok::<_, ValuesError>(
            Seq::<i64>::empty(),
        ),
{
}

/// Reads the words of the state value that a state query found; an empty
/// value where it found none.
pub fn state_value(queries: &QueryValues) -> (r: Result<Vec<i64>, ValuesError>)
    ensures
        match r {
            Ok(w) => spec_state_value(*queries) == Ok::<_, ValuesError>(w@),
            Err(e) => spec_state_value(*queries) == Err::<Seq<i64>, ValuesError>(e),
        },
{
    match single_value(queries) {
        None => Ok(Vec::new()),
        Some(JsonValue::String(t)) => match decode_words(t) {
            Some(w) => Ok(w),
            None => Err(ValuesError::InvalidBlob),
        },
        Some(_) => Err(ValuesError::UnexpectedType),
    }
}

/// The predicate that a predicate query reads: the bytes of its one value,
/// or none where it found no value.
pub open spec fn spec_predicate_value(queries: QueryValues) -> Result<Option<Seq<u8>>, ValuesError> {
    match spec_single_value(queries) {
        None => Ok(None),
        Some(JsonValue::String(t)) => match spec_blob_bytes(t@) {
            Some(b) => Ok(Some(b)),
            None => Err(ValuesError::InvalidBlob),
        },
        Some(_) => Err(ValuesError::UnexpectedType),
    }
}

/// Reads the bytes of the predicate that a predicate query found, if any.
pub fn predicate_value(queries: &QueryValues) -> (r: Result<Option<Vec<u8>>, ValuesError>)
    ensures
        match r {
            Ok(Some(b)) => spec_predicate_value(*queries) == Ok::<_, ValuesError>(Some(b@)),
            Ok(None) => spec_predicate_value(*queries) == Ok::<Option<Seq<u8>>, ValuesError>(None),
            Err(e) => spec_predicate_value(*queries) == Err::<Option<Seq<u8>>, ValuesError>(e),
        },
{
    match single_value(queries) {
        None => Ok(None),
        Some(JsonValue::String(t)) => match blob_bytes(t) {
            Some(b) => Ok(Some(b)),
            None => Err(ValuesError::InvalidBlob),
        },
        Some(_) => Err(ValuesError::UnexpectedType),
    }
}

/// Whether the ids of the groups strictly ascend.
pub open spec fn group_ids_ascend(gs: Seq<(u64, Seq<Seq<u8>>)>) -> bool {
    forall|i: int, j: int| 0 <= i < j < gs.len() ==> gs[i].0 < gs[j].0
}

/// Whether some group has the id.
pub open spec fn has_group(gs: Seq<(u64, Seq<Seq<u8>>)>, id: u64) -> bool {
    exists|k: int| 0 <= k < gs.len() && gs[k].0 == id
}

/// The predicate blobs of the rows whose contract id is `id`, in row order.
pub open spec fn rows_of(rows: Seq<Columns>, id: u64) -> Seq<Seq<u8>>
    decreases rows.len(),
{
    if rows.len() == 0 {
        Seq::empty()
    } else {
        let prev = rows_of(rows.drop_last(), id);
        match spec_predicate_row(rows.last()) {
            Ok((i, b)) => if i == id {
                prev.push(b)
            } else {
                prev
            },
            Err(_) => prev,
        }
    }
}

/// What grouping keeps: the groups ascend by id, each holds exactly the
/// predicates of its id in row order, and every id with a predicate has a
/// group.
pub open spec fn groups_sound(rows: Seq<Columns>, gs: Seq<(u64, Seq<Seq<u8>>)>) -> bool {
    &&& group_ids_ascend(gs)
    &&& forall|k: int| 0 <= k < gs.len() ==> #[trigger] gs[k].1 == rows_of(rows, gs[k].0)
    &&& forall|id: u64| #[trigger] has_group(gs, id) <==> rows_of(rows, id).len() > 0
}

proof fn lemma_add_to_group_sound(
    rows: Seq<Columns>,
    gs: Seq<(u64, Seq<Seq<u8>>)>,
    id: u64,
    b: Seq<u8>,
)
    requires
        rows.len() > 0,
        groups_sound(rows.drop_last(), gs),
        spec_predicate_row(rows.last()) == Ok::<_, ValuesError>((id, b)),
    ensures
        groups_sound(rows, spec_add_to_group(gs, id, b)),
{
    let prefix = rows.drop_last();
    lemma_group_pos(gs, id);
    let j = group_pos(gs, id);
    let r = spec_add_to_group(gs, id, b);
    assert forall|x: u64| #[trigger] rows_of(rows, x) == (if x == id {
        rows_of(prefix, x).push(b)
    } else {
        rows_of(prefix, x)
    }) by {}
    if j < gs.len() && gs[j].0 == id {
        assert(r == gs.update(j, (id, gs[j].1.push(b))));
        assert forall|p: int, q: int| 0 <= p < q < r.len() implies r[p].0 < r[q].0 by {
            assert(r[p].0 == gs[p].0);
            assert(r[q].0 == gs[q].0);
        }
        assert forall|k: int| 0 <= k < r.len() implies #[trigger] r[k].1 == rows_of(rows, r[k].0) by {
            if k != j {
                assert(gs[k].0 != id) by {
                    if k < j {
                    } else {
                        assert(gs[j].0 < gs[k].0);
                    }
                }
                assert(gs[k].1 == rows_of(prefix, gs[k].0));
            } else {
                assert(gs[j].1 == rows_of(prefix, gs[j].0));
            }
        }
        assert forall|x: u64| #[trigger] has_group(r, x) <==> rows_of(rows, x).len() > 0 by {
            if has_group(r, x) {
                let k = choose|k: int| 0 <= k < r.len() && r[k].0 == x;
                assert(gs[k].0 == x);
                assert(has_group(gs, x));
            }
            if has_group(gs, x) {
                let k = choose|k: int| 0 <= k < gs.len() && gs[k].0 == x;
                assert(r[k].0 == x);
            }
            if x == id {
                assert(r[j].0 == x);
            }
        }
    } else {
        assert(r == gs.insert(j, (id, seq![b])));
        assert forall|k: int| j <= k < gs.len() implies gs[k].0 > id by {
            if k > j {
                assert(gs[j].0 < gs[k].0);
            }
        }
        assert(!has_group(gs, id)) by {
            if has_group(gs, id) {
                let k = choose|k: int| 0 <= k < gs.len() && gs[k].0 == id;
                if k < j {
                } else {
                    assert(gs[k].0 > id);
                }
            }
        }
        assert(rows_of(prefix, id).len() == 0);
        assert(rows_of(rows, id) =~= seq![b]);
        assert forall|p: int, q: int| 0 <= p < q < r.len() implies r[p].0 < r[q].0 by {
            if q < j {
            } else if q == j {
            } else if p < j {
                assert(r[q] == gs[q - 1]);
            } else if p == j {
                assert(r[q] == gs[q - 1]);
            } else {
                assert(r[p] == gs[p - 1]);
                assert(r[q] == gs[q - 1]);
            }
        }
        assert forall|k: int| 0 <= k < r.len() implies #[trigger] r[k].1 == rows_of(rows, r[k].0) by {
            if k < j {
                assert(gs[k].1 == rows_of(prefix, gs[k].0));
            } else if k > j {
                assert(r[k] == gs[k - 1]);
                assert(gs[k - 1].1 == rows_of(prefix, gs[k - 1].0));
            }
        }
        assert forall|x: u64| #[trigger] has_group(r, x) <==> rows_of(rows, x).len() > 0 by {
            if has_group(r, x) {
                let k = choose|k: int| 0 <= k < r.len() && r[k].0 == x;
                if k < j {
                    assert(gs[k].0 == x);
                    assert(has_group(gs, x));
                } else if k > j {
                    assert(gs[k - 1].0 == x);
                    assert(has_group(gs, x));
                }
            }
            if has_group(gs, x) {
                let k = choose|k: int| 0 <= k < gs.len() && gs[k].0 == x;
                if k < j {
                    assert(r[k].0 == x);
                } else {
                    assert(r[k + 1].0 == x);
                }
            }
            if x == id {
                assert(r[j].0 == x);
            }
        }
    }
}

proof fn lemma_groups_sound(rows: Seq<Columns>)
    ensures
        spec_groups(rows) matches Ok(gs) ==> groups_sound(rows, gs),
    decreases rows.len(),
{
    if rows.len() > 0 {
        lemma_groups_sound(rows.drop_last());
        if let Ok(gs) = spec_groups(rows.drop_last()) {
            if let Ok((id, b)) = spec_predicate_row(rows.last()) {
                lemma_add_to_group_sound(rows, gs, id, b);
            }
        }
    }
}

proof fn lemma_attach_keeps_groups(gs: Seq<(u64, Seq<Seq<u8>>)>, salts: Seq<(u64, Seq<u8>)>)
    ensures
        spec_attach_salts(gs, salts) matches Ok(cs) ==> {
            &&& cs.len() == gs.len()
            &&& forall|k: int| 0 <= k < cs.len() ==> #[trigger] cs[k].0 == gs[k].0 && cs[k].2
                == gs[k].1 && find_salt(salts, gs[k].0) == Some(cs[k].1)
        },
    decreases gs.len(),
{
    if gs.len() > 0 {
        lemma_attach_keeps_groups(gs.drop_last(), salts);
    }
}

/// The contracts that [`list_contracts`] reads come in strictly ascending id
/// order; each holds exactly the predicates of the rows of its id, in row
/// order, with the salt that the salt rows give its id; and every id that has
/// a predicate row has a contract.
pub proof fn lemma_contracts_grouped(queries: QueryValues)
    ensures
        spec_list_contracts(queries) matches Ok(cs) ==> {
            let qs = queries.queries@;
            &&& forall|i: int, j: int| 0 <= i < j < cs.len() ==> cs[i].0 < cs[j].0
            &&& cs.len() > 0 ==> qs[1] is Some
            &&& qs[1] matches Some(rows) ==> {
                &&& forall|k: int| 0 <= k < cs.len() ==> #[trigger] cs[k].2 == rows_of(
                    rows.rows@,
                    cs[k].0,
                )
                &&& forall|k: int| 0 <= k < cs.len() ==> (qs[0] matches Some(s) && spec_salts(
                    s.rows@,
                ) matches Ok(salts) && find_salt(salts, #[trigger] cs[k].0) == Some(cs[k].1))
                &&& forall|id: u64| #[trigger] rows_of(rows.rows@, id).len() > 0 ==> exists|k: int|
                    0 <= k < cs.len() && cs[k].0 == id
            }
        },
{
    let qs = queries.queries@;
    if qs.len() == 2 && qs[0] is Some && qs[1] is Some && qs[0]->0.rows@.len() != 0
        && qs[1]->0.rows@.len() != 0 {
        let rows = qs[1]->0.rows@;
        lemma_groups_sound(rows);
        if let Ok(salts) = spec_salts(qs[0]->0.rows@) {
            if let Ok(gs) = spec_groups(rows) {
                lemma_attach_keeps_groups(gs, salts);
                if let Ok(cs) = spec_attach_salts(gs, salts) {
                    assert forall|id: u64| #[trigger] rows_of(rows, id).len() > 0 implies exists|k: int|
                        0 <= k < cs.len() && cs[k].0 == id by {
                        assert(has_group(gs, id));
                        let k = choose|k: int| 0 <= k < gs.len() && gs[k].0 == id;
                        assert(cs[k].0 == id);
                    }
                    assert forall|k: int| 0 <= k < cs.len() implies #[trigger] cs[k].2 == rows_of(
                        rows,
                        cs[k].0,
                    ) by {
                        assert(gs[k].1 == rows_of(rows, gs[k].0));
                    }
                }
            }
        }
    }
}

/// Whether the batch ids of the blocks strictly ascend.
pub open spec fn batches_ascend(bs: Seq<BlockView>) -> bool {
    forall|i: int, j: int| 0 <= i < j < bs.len() ==> bs[i].0 < bs[j].0
}

/// Whether every block is numbered one below its batch id.
pub open spec fn blocks_numbered(bs: Seq<BlockView>) -> bool {
    forall|i: int| 0 <= i < bs.len() ==> #[trigger] bs[i].1 + 1 == bs[i].0
}

proof fn lemma_add_to_block_keeps_order(bs: Seq<BlockView>, row: (u64, Signed, u64, u32))
    requires
        batches_ascend(bs),
        row.0 > 0,
    ensures
        batches_ascend(spec_add_to_block(bs, row)),
        blocks_numbered(bs) ==> blocks_numbered(spec_add_to_block(bs, row)),
{
    let id = row.0;
    lemma_block_pos(bs, id);
    let j = block_pos(bs, id);
    let r = spec_add_to_block(bs, row);
    if j < bs.len() && bs[j].0 == id {
        assert forall|p: int, q: int| 0 <= p < q < r.len() implies r[p].0 < r[q].0 by {
            assert(r[p].0 == bs[p].0);
            assert(r[q].0 == bs[q].0);
        }
        if blocks_numbered(bs) {
            assert forall|i: int| 0 <= i < r.len() implies #[trigger] r[i].1 + 1 == r[i].0 by {
                assert(bs[i].1 + 1 == bs[i].0);
            }
        }
    } else {
        assert(r == bs.insert(j, (id, (id - 1) as u64, row.2, row.3, seq![row.1])));
        assert forall|k: int| j <= k < bs.len() implies bs[k].0 > id by {
            if k > j {
                assert(bs[j].0 < bs[k].0);
            }
        }
        assert forall|p: int, q: int| 0 <= p < q < r.len() implies r[p].0 < r[q].0 by {
            if q < j {
            } else if q == j {
            } else if p < j {
                assert(r[q] == bs[q - 1]);
            } else if p == j {
                assert(r[q] == bs[q - 1]);
            } else {
                assert(r[p] == bs[p - 1]);
                assert(r[q] == bs[q - 1]);
            }
        }
        if blocks_numbered(bs) {
            assert forall|i: int| 0 <= i < r.len() implies #[trigger] r[i].1 + 1 == r[i].0 by {
                if i < j {
                    assert(bs[i].1 + 1 == bs[i].0);
                } else if i > j {
                    assert(r[i] == bs[i - 1]);
                    assert(bs[i - 1].1 + 1 == bs[i - 1].0);
                }
            }
        }
    }
}

proof fn lemma_fold_blocks_order(rows: Seq<Columns>)
    ensures
        spec_fold_blocks(rows) matches Ok(bs) ==> batches_ascend(bs) && blocks_numbered(bs),
    decreases rows.len(),
{
    if rows.len() > 0 {
        lemma_fold_blocks_order(rows.drop_last());
        if let Ok(bs) = spec_fold_blocks(rows.drop_last()) {
            if let Ok(row) = spec_block_row(cols(rows.last())) {
                lemma_add_to_block_keeps_order(bs, row);
            }
        }
    }
}

/// The blocks that [`list_blocks`] reads come in strictly ascending batch
/// order, and each is numbered one below its batch id.
pub proof fn lemma_blocks_in_batch_order(queries: QueryValues)
    ensures
        spec_list_blocks(queries) matches Ok(bs) ==> batches_ascend(bs) && blocks_numbered(bs),
{
    let qs = queries.queries@;
    if qs.len() == 1 && qs[0] is Some {
        lemma_fold_blocks_order(qs[0]->0.rows@);
    }
}

/// The block of batch `id` among blocks kept in ascending batch order:
/// number, seconds, nanoseconds and solutions.
pub open spec fn block_entry(bs: Seq<BlockView>, id: u64) -> (u64, u64, u32, Seq<Signed>) {
    let k = choose|k: int| 0 <= k < bs.len() && bs[k].0 == id;
    (bs[k].1, bs[k].2, bs[k].3, bs[k].4)
}

/// Blocks kept in ascending batch order, as a map from batch id to block.
pub open spec fn blocks_map(bs: Seq<BlockView>) -> Map<u64, (u64, u64, u32, Seq<Signed>)> {
    Map::new(|id: u64| has_block(bs, id), |id: u64| block_entry(bs, id))
}

proof fn lemma_entry_at(bs: Seq<BlockView>, k: int)
    requires
        batches_ascend(bs),
        0 <= k < bs.len(),
    ensures
        has_block(bs, bs[k].0),
        block_entry(bs, bs[k].0) == (bs[k].1, bs[k].2, bs[k].3, bs[k].4),
{
    let id = bs[k].0;
    assert(has_block(bs, id));
    let k2 = choose|k2: int| 0 <= k2 < bs.len() && bs[k2].0 == id;
    if k2 < k {
        assert(bs[k2].0 < bs[k].0);
    } else if k2 > k {
        assert(bs[k].0 < bs[k2].0);
    }
}

/// One block row as a step on the map from batch id to block: a batch id of
/// zero is refused; otherwise the row's solution is added to its batch's
/// block, which keeps the number and time it has, or which starts numbered
/// one below the batch id with the row's time; other batches are untouched.
pub proof fn lemma_block_row_step(bs: Seq<BlockView>, c: Seq<JsonValue>)
    requires
        batches_ascend(bs),
    ensures
        spec_map_solution_to_block(bs, c) matches Ok(r) ==> {
            let (b, sol, secs, nanos) = spec_block_row(c)->Ok_0;
            let m = blocks_map(bs);
            &&& b != 0
            &&& blocks_map(r) == (if m.contains_key(b) {
                m.insert(b, (m[b].0, m[b].1, m[b].2, m[b].3.push(sol)))
            } else {
                m.insert(b, ((b - 1) as u64, secs, nanos, seq![sol]))
            })
        },
        spec_block_row(c) matches Ok(row) && row.0 == 0 ==> false,
{
    if let Ok(row) = spec_block_row(c) {
        let (b, sol, secs, nanos) = row;
        let r = spec_add_to_block(bs, row);
        let m = blocks_map(bs);
        lemma_add_to_block_keeps_order(bs, row);
        lemma_block_pos(bs, b);
        let j = block_pos(bs, b);
        let expected = if m.contains_key(b) {
            m.insert(b, (m[b].0, m[b].1, m[b].2, m[b].3.push(sol)))
        } else {
            m.insert(b, ((b - 1) as u64, secs, nanos, seq![sol]))
        };
        if j < bs.len() && bs[j].0 == b {
            lemma_entry_at(bs, j);
            assert forall|id: u64| #[trigger] has_block(r, id) <==> has_block(bs, id) by {
                if has_block(r, id) {
                    let k = choose|k: int| 0 <= k < r.len() && r[k].0 == id;
                    assert(bs[k].0 == id);
                }
                if has_block(bs, id) {
                    let k = choose|k: int| 0 <= k < bs.len() && bs[k].0 == id;
                    assert(r[k].0 == id);
                }
            }
            assert forall|id: u64| #[trigger] has_block(r, id) implies block_entry(r, id) == expected[id] by {
                let k = choose|k: int| 0 <= k < bs.len() && bs[k].0 == id;
                lemma_entry_at(bs, k);
                lemma_entry_at(r, k);
                assert(r[k].0 == id);
            }
            assert(blocks_map(r) =~= expected);
        } else {
            assert forall|k: int| j <= k < bs.len() implies bs[k].0 > b by {
                if k > j {
                    assert(bs[j].0 < bs[k].0);
                }
            }
            assert(!has_block(bs, b)) by {
                if has_block(bs, b) {
                    let k = choose|k: int| 0 <= k < bs.len() && bs[k].0 == b;
                    if k >= j {
                        assert(bs[k].0 > b);
                    }
                }
            }
            assert(r == bs.insert(j, (b, (b - 1) as u64, secs, nanos, seq![sol])));
            assert forall|id: u64| #[trigger] has_block(r, id) <==> (has_block(bs, id) || id == b) by {
                if has_block(r, id) {
                    let k = choose|k: int| 0 <= k < r.len() && r[k].0 == id;
                    if k < j {
                        assert(bs[k].0 == id);
                    } else if k > j {
                        assert(bs[k - 1].0 == id);
                    }
                }
                if has_block(bs, id) {
                    let k = choose|k: int| 0 <= k < bs.len() && bs[k].0 == id;
                    if k < j {
                        assert(r[k].0 == id);
                    } else {
                        assert(r[k + 1].0 == id);
                    }
                }
                if id == b {
                    assert(r[j].0 == b);
                }
            }
            assert forall|id: u64| #[trigger] has_block(r, id) implies block_entry(r, id) == expected[id] by {
                if id == b {
                    lemma_entry_at(r, j as int);
                } else {
                    let k = choose|k: int| 0 <= k < bs.len() && bs[k].0 == id;
                    lemma_entry_at(bs, k);
                    if k < j {
                        lemma_entry_at(r, k);
                    } else {
                        assert(r[k + 1] == bs[k]);
                        lemma_entry_at(r, k + 1);
                    }
                }
            }
            assert(blocks_map(r) =~= expected);
        }
    }
}

/// The solutions of the rows of batch `id`, in row order.
pub open spec fn batch_solutions(rows: Seq<Columns>, id: u64) -> Seq<Signed>
    decreases rows.len(),
{
    if rows.len() == 0 {
        Seq::empty()
    } else {
        let prev = batch_solutions(rows.drop_last(), id);
        match spec_block_row(cols(rows.last())) {
            Ok((i, sol, _, _)) => if i == id {
                prev.push(sol)
            } else {
                prev
            },
            Err(_) => prev,
        }
    }
}

/// The time of the first row of batch `id`, if any.
pub open spec fn batch_time(rows: Seq<Columns>, id: u64) -> Option<(u64, u32)>
    decreases rows.len(),
{
    if rows.len() == 0 {
        None
    } else {
        match batch_time(rows.drop_last(), id) {
            Some(t) => Some(t),
            None => match spec_block_row(cols(rows.last())) {
                Ok((i, _, secs, nanos)) => if i == id {
                    Some((secs, nanos))
                } else {
                    None
                },
                Err(_) => None,
            },
        }
    }
}

/// Whether some block has the batch id.
pub open spec fn has_block(bs: Seq<BlockView>, id: u64) -> bool {
    exists|k: int| 0 <= k < bs.len() && bs[k].0 == id
}

/// What folding the rows keeps: each block holds exactly the solutions of
/// its batch in row order, with the time of its batch's first row, and every
/// batch with a row has a block.
pub open spec fn blocks_sound(rows: Seq<Columns>, bs: Seq<BlockView>) -> bool {
    &&& forall|k: int| 0 <= k < bs.len() ==> #[trigger] bs[k].4 == batch_solutions(rows, bs[k].0)
    &&& forall|k: int| 0 <= k < bs.len() ==> batch_time(rows, #[trigger] bs[k].0) == Some(
        (bs[k].2, bs[k].3),
    )
    &&& forall|id: u64| #[trigger] has_block(bs, id) <==> batch_solutions(rows, id).len() > 0
}

proof fn lemma_batch_time_some(rows: Seq<Columns>, id: u64)
    ensures
        batch_time(rows, id) is Some <==> batch_solutions(rows, id).len() > 0,
    decreases rows.len(),
{
    if rows.len() > 0 {
        lemma_batch_time_some(rows.drop_last(), id);
    }
}

proof fn lemma_add_to_block_sound(rows: Seq<Columns>, bs: Seq<BlockView>, row: (u64, Signed, u64, u32))
    requires
        rows.len() > 0,
        batches_ascend(bs),
        blocks_sound(rows.drop_last(), bs),
        spec_block_row(cols(rows.last())) == Ok::<_, ValuesError>(row),
    ensures
        blocks_sound(rows, spec_add_to_block(bs, row)),
{
    let prefix = rows.drop_last();
    let (id, sol, secs, nanos) = row;
    lemma_block_pos(bs, id);
    let j = block_pos(bs, id);
    let r = spec_add_to_block(bs, row);
    assert forall|x: u64| #[trigger] batch_solutions(rows, x) == (if x == id {
        batch_solutions(prefix, x).push(sol)
    } else {
        batch_solutions(prefix, x)
    }) by {}
    assert forall|x: u64| #[trigger] batch_time(rows, x) == (if batch_time(prefix, x) is Some {
        batch_time(prefix, x)
    } else if x == id {
        Some((secs, nanos))
    } else {
        None::<(u64, u32)>
    }) by {}
    if j < bs.len() && bs[j].0 == id {
        assert(r == bs.update(j, (id, bs[j].1, bs[j].2, bs[j].3, bs[j].4.push(sol))));
        assert(batch_time(prefix, id) == Some((bs[j].2, bs[j].3)));
        assert forall|k: int| 0 <= k < r.len() implies #[trigger] r[k].4 == batch_solutions(rows, r[k].0) by {
            if k != j {
                assert(bs[k].0 != id) by {
                    if k < j {
                    } else {
                        assert(bs[j].0 < bs[k].0);
                    }
                }
                assert(bs[k].4 == batch_solutions(prefix, bs[k].0));
            } else {
                assert(bs[j].4 == batch_solutions(prefix, bs[j].0));
            }
        }
        assert forall|k: int| 0 <= k < r.len() implies batch_time(rows, #[trigger] r[k].0) == Some(
            (r[k].2, r[k].3),
        ) by {
            assert(batch_time(prefix, bs[k].0) == Some((bs[k].2, bs[k].3)));
        }
        assert forall|x: u64| #[trigger] has_block(r, x) <==> batch_solutions(rows, x).len() > 0 by {
            if has_block(r, x) {
                let k = choose|k: int| 0 <= k < r.len() && r[k].0 == x;
                assert(bs[k].0 == x);
                assert(has_block(bs, x));
            }
            if has_block(bs, x) {
                let k = choose|k: int| 0 <= k < bs.len() && bs[k].0 == x;
                assert(r[k].0 == x);
            }
            if x == id {
                assert(r[j].0 == x);
            }
        }
    } else {
        assert(r == bs.insert(j, (id, (id - 1) as u64, secs, nanos, seq![sol])));
        assert forall|k: int| j <= k < bs.len() implies bs[k].0 > id by {
            if k > j {
                assert(bs[j].0 < bs[k].0);
            }
        }
        assert(!has_block(bs, id)) by {
            if has_block(bs, id) {
                let k = choose|k: int| 0 <= k < bs.len() && bs[k].0 == id;
                if k < j {
                } else {
                    assert(bs[k].0 > id);
                }
            }
        }
        assert(batch_solutions(prefix, id).len() == 0);
        lemma_batch_time_some(prefix, id);
        assert(batch_time(prefix, id) is None);
        assert(batch_solutions(rows, id) =~= seq![sol]);
        assert forall|k: int| 0 <= k < r.len() implies #[trigger] r[k].4 == batch_solutions(rows, r[k].0) by {
            if k < j {
                assert(bs[k].4 == batch_solutions(prefix, bs[k].0));
            } else if k > j {
                assert(r[k] == bs[k - 1]);
                assert(bs[k - 1].4 == batch_solutions(prefix, bs[k - 1].0));
            }
        }
        assert forall|k: int| 0 <= k < r.len() implies batch_time(rows, #[trigger] r[k].0) == Some(
            (r[k].2, r[k].3),
        ) by {
            if k < j {
                assert(batch_time(prefix, bs[k].0) == Some((bs[k].2, bs[k].3)));
            } else if k > j {
                assert(r[k] == bs[k - 1]);
                assert(batch_time(prefix, bs[k - 1].0) == Some((bs[k - 1].2, bs[k - 1].3)));
            }
        }
        assert forall|x: u64| #[trigger] has_block(r, x) <==> batch_solutions(rows, x).len() > 0 by {
            if has_block(r, x) {
                let k = choose|k: int| 0 <= k < r.len() && r[k].0 == x;
                if k < j {
                    assert(bs[k].0 == x);
                    assert(has_block(bs, x));
                } else if k > j {
                    assert(bs[k - 1].0 == x);
                    assert(has_block(bs, x));
                }
            }
            if has_block(bs, x) {
                let k = choose|k: int| 0 <= k < bs.len() && bs[k].0 == x;
                if k < j {
                    assert(r[k].0 == x);
                } else {
                    assert(r[k + 1].0 == x);
                }
            }
            if x == id {
                assert(r[j].0 == x);
            }
        }
    }
}

proof fn lemma_fold_blocks_sound(rows: Seq<Columns>)
    ensures
        spec_fold_blocks(rows) matches Ok(bs) ==> blocks_sound(rows, bs),
    decreases rows.len(),
{
    if rows.len() > 0 {
        lemma_fold_blocks_sound(rows.drop_last());
        lemma_fold_blocks_order(rows.drop_last());
        if let Ok(bs) = spec_fold_blocks(rows.drop_last()) {
            if let Ok(row) = spec_block_row(cols(rows.last())) {
                lemma_add_to_block_sound(rows, bs, row);
            }
        }
    }
}

/// Each block that [`list_blocks`] reads holds exactly the solutions of the
/// rows of its batch, in row order, and the time of its batch's first row;
/// every batch with a row has a block.
pub proof fn lemma_blocks_grouped(queries: QueryValues)
    ensures
        spec_list_blocks(queries) matches Ok(bs) ==> (queries.queries@.len() == 1 && (
        queries.queries@[0] matches Some(q) ==> blocks_sound(q.rows@, bs))),
{
    let qs = queries.queries@;
    if qs.len() == 1 && qs[0] is Some {
        lemma_fold_blocks_sound(qs[0]->0.rows@);
    }
}

/// Why the rqlite storage failed.
#[derive(Debug, PartialEq, Eq)]
pub enum StorageError {
    /// A response could not be read.
    Values(ValuesError),
    /// A read ran past the last key.
    NoNextKey,
    /// The request failed; the message.
    Request(String),
}

/// Error for rqlite read.
#[derive(Debug, PartialEq, Eq)]
pub enum RqliteError {
    /// Error during read
    ReadError(StorageError),
}

} // verus!
