//! The statements that the rqlite storage sends: which SQL statement, with
//! which arguments, in which order. Values are sent as blobs (upper-case hex
//! of their postcard encoding).
use crate::blob::{encode_bytes, encode_hash, encode_words, spec_encode_hash, spec_encode_words};
use crate::blob::spec_hex_encode_upper;
use crate::block::Timestamp;
use crate::contract::{addresses_of, at_address, by_address, contract_addr, contract_addr_of, full_addresses, sort_by_address, stored_views, StoredPredicate};
use crate::content::{
    encode_signature, encode_solution_set, hash_solution_set, signature_bytes_of, solution_set_bytes_of,
    solution_set_hash_of, spec_stored_of, stored_predicates,
};
use vstd::prelude::*;

verus! {

/// Amount of values returned in a single page.
pub const PAGE_SIZE: usize = 100;

/// The SQL statements of the storage, each kept in a file of its own.
#[derive(Debug, PartialEq, Eq, Clone, Copy)]
pub enum Sql {
    CreatePredicates,
    CreateContracts,
    CreateContractPairing,
    CreateSolutions,
    CreateSolutionsPool,
    CreateSolved,
    CreateContractState,
    CreateBatch,
    CreateFailedSolutions,
    IndexSolvedBatchId,
    IndexSolvedContentHash,
    IndexFailedSolutionsContentHash,
    InsertContract,
    InsertContractPairing,
    InsertSolutions,
    InsertSolutionsPool,
    InsertCopyToFailed,
    InsertCopyToSolved,
    InsertBatch,
    UpdateDeleteFromSolutionsPool,
    UpdateDeleteEmptyBatch,
    UpdateDeleteState,
    UpdateUpdateState,
    UpdatePruneFailed,
    QueryGetState,
    QueryGetPredicate,
    QueryGetContractSignature,
    QueryGetContract,
    QueryListContracts,
    QueryListContractsByTime,
    QueryListSolutionsPool,
    QueryListFailedSolutions,
    QueryListWinningBatches,
    QueryListWinningBatchesByTime,
    QueryGetSolution,
    QueryGetSolutionOutcomes,
    QueryGetLatestBlock,
}

/// The path of a statement's file within the storage's SQL directory.
pub open spec fn spec_path(q: Sql) -> Seq<char> {
    match q {
        Sql::CreatePredicates => "create/predicates.sql"@,
        Sql::CreateContracts => "create/contracts.sql"@,
        Sql::CreateContractPairing => "create/contract_pairing.sql"@,
        Sql::CreateSolutions => "create/solutions.sql"@,
        Sql::CreateSolutionsPool => "create/solutions_pool.sql"@,
        Sql::CreateSolved => "create/solved.sql"@,
        Sql::CreateContractState => "create/contract_state.sql"@,
        Sql::CreateBatch => "create/batch.sql"@,
        Sql::CreateFailedSolutions => "create/failed_solutions.sql"@,
        Sql::IndexSolvedBatchId => "index/solved_batch_id.sql"@,
        Sql::IndexSolvedContentHash => "index/solved_content_hash.sql"@,
        Sql::IndexFailedSolutionsContentHash => "index/failed_solutions_content_hash.sql"@,
        Sql::InsertContract => "insert/contract.sql"@,
        Sql::InsertContractPairing => "insert/contract_pairing.sql"@,
        Sql::InsertSolutions => "insert/solutions.sql"@,
        Sql::InsertSolutionsPool => "insert/solutions_pool.sql"@,
        Sql::InsertCopyToFailed => "insert/copy_to_failed.sql"@,
        Sql::InsertCopyToSolved => "insert/copy_to_solved.sql"@,
        Sql::InsertBatch => "insert/batch.sql"@,
        Sql::UpdateDeleteFromSolutionsPool => "update/delete_from_solutions_pool.sql"@,
        Sql::UpdateDeleteEmptyBatch => "update/delete_empty_batch.sql"@,
        Sql::UpdateDeleteState => "update/delete_state.sql"@,
        Sql::UpdateUpdateState => "update/update_state.sql"@,
        Sql::UpdatePruneFailed => "update/prune_failed.sql"@,
        Sql::QueryGetState => "query/get_state.sql"@,
        Sql::QueryGetPredicate => "query/get_predicate.sql"@,
        Sql::QueryGetContractSignature => "query/get_contract_signature.sql"@,
        Sql::QueryGetContract => "query/get_contract.sql"@,
        Sql::QueryListContracts => "query/list_contracts.sql"@,
        Sql::QueryListContractsByTime => "query/list_contracts_by_time.sql"@,
        Sql::QueryListSolutionsPool => "query/list_solutions_pool.sql"@,
        Sql::QueryListFailedSolutions => "query/list_failed_solutions.sql"@,
        Sql::QueryListWinningBatches => "query/list_winning_batches.sql"@,
        Sql::QueryListWinningBatchesByTime => "query/list_winning_batches_by_time.sql"@,
        Sql::QueryGetSolution => "query/get_solution.sql"@,
        Sql::QueryGetSolutionOutcomes => "query/get_solution_outcomes.sql"@,
        Sql::QueryGetLatestBlock => "query/get_latest_block.sql"@,
    }
}

impl Sql {
    /// The path of the statement's file within the storage's SQL directory.
    pub fn path(&self) -> (r: &'static str)
        ensures
            r@ == spec_path(*self),
    {
        match self {
            Sql::CreatePredicates => "create/predicates.sql",
            Sql::CreateContracts => "create/contracts.sql",
            Sql::CreateContractPairing => "create/contract_pairing.sql",
            Sql::CreateSolutions => "create/solutions.sql",
            Sql::CreateSolutionsPool => "create/solutions_pool.sql",
            Sql::CreateSolved => "create/solved.sql",
            Sql::CreateContractState => "create/contract_state.sql",
            Sql::CreateBatch => "create/batch.sql",
            Sql::CreateFailedSolutions => "create/failed_solutions.sql",
            Sql::IndexSolvedBatchId => "index/solved_batch_id.sql",
            Sql::IndexSolvedContentHash => "index/solved_content_hash.sql",
            Sql::IndexFailedSolutionsContentHash => "index/failed_solutions_content_hash.sql",
            Sql::InsertContract => "insert/contract.sql",
            Sql::InsertContractPairing => "insert/contract_pairing.sql",
            Sql::InsertSolutions => "insert/solutions.sql",
            Sql::InsertSolutionsPool => "insert/solutions_pool.sql",
            Sql::InsertCopyToFailed => "insert/copy_to_failed.sql",
            Sql::InsertCopyToSolved => "insert/copy_to_solved.sql",
            Sql::InsertBatch => "insert/batch.sql",
            Sql::UpdateDeleteFromSolutionsPool => "update/delete_from_solutions_pool.sql",
            Sql::UpdateDeleteEmptyBatch => "update/delete_empty_batch.sql",
            Sql::UpdateDeleteState => "update/delete_state.sql",
            Sql::UpdateUpdateState => "update/update_state.sql",
            Sql::UpdatePruneFailed => "update/prune_failed.sql",
            Sql::QueryGetState => "query/get_state.sql",
            Sql::QueryGetPredicate => "query/get_predicate.sql",
            Sql::QueryGetContractSignature => "query/get_contract_signature.sql",
            Sql::QueryGetContract => "query/get_contract.sql",
            Sql::QueryListContracts => "query/list_contracts.sql",
            Sql::QueryListContractsByTime => "query/list_contracts_by_time.sql",
            Sql::QueryListSolutionsPool => "query/list_solutions_pool.sql",
            Sql::QueryListFailedSolutions => "query/list_failed_solutions.sql",
            Sql::QueryListWinningBatches => "query/list_winning_batches.sql",
            Sql::QueryListWinningBatchesByTime => "query/list_winning_batches_by_time.sql",
            Sql::QueryGetSolution => "query/get_solution.sql",
            Sql::QueryGetSolutionOutcomes => "query/get_solution_outcomes.sql",
            Sql::QueryGetLatestBlock => "query/get_latest_block.sql",
        }
    }
}

/// An argument of a statement.
#[derive(Debug, PartialEq, Eq)]
pub enum SqlArg {
    Text(String),
    Int(u64),
}

/// The arguments of a statement: in order, or by name.
#[derive(Debug, PartialEq, Eq)]
pub enum SqlArgs {
    Positional(Vec<SqlArg>),
    Named(Vec<(String, SqlArg)>),
}

/// A statement to send.
#[derive(Debug, PartialEq, Eq)]
pub struct Statement {
    pub sql: Sql,
    pub args: SqlArgs,
}

/// The view of an argument.
pub enum ArgView {
    Text(Seq<char>),
    Int(u64),
}

/// The view of an argument.
pub open spec fn arg_view(a: SqlArg) -> ArgView {
    match a {
        SqlArg::Text(s) => ArgView::Text(s@),
        SqlArg::Int(n) => ArgView::Int(n),
    }
}

/// The view of the arguments of a statement.
pub enum ArgsView {
    Positional(Seq<ArgView>),
    Named(Seq<(Seq<char>, ArgView)>),
}

/// The view of a statement.
pub open spec fn stmt_view(s: Statement) -> (Sql, ArgsView) {
    match s.args {
        SqlArgs::Positional(a) => (s.sql, ArgsView::Positional(a@.map_values(|x: SqlArg| arg_view(x)))),
        SqlArgs::Named(a) => (
            s.sql,
            ArgsView::Named(a@.map_values(|x: (String, SqlArg)| (x.0@, arg_view(x.1)))),
        ),
    }
}

/// Views of statements.
pub open spec fn stmts_view(v: Seq<Statement>) -> Seq<(Sql, ArgsView)> {
    v.map_values(|s: Statement| stmt_view(s))
}

/// What `postcard::to_allocvec` gives for a content address: the length of
/// its bytes, 32, as one varint byte, then the bytes.
pub open spec fn postcard_encode_address(addr: Seq<u8>) -> Seq<u8> {
    seq![32u8] + addr
}

/// `postcard::to_allocvec` on a content address.
///
/// Trusted: `essential_types` serializes a content address as a slice of its
/// bytes, which postcard writes as its length (32, one varint byte) followed
/// by the bytes; that is [`postcard_encode_address`]. It can only fail on
/// allocation, where it aborts like any other allocation.
#[verifier::external_body]
fn postcard_encode_address_bytes(addr: &[u8; 32]) -> (r: Vec<u8>)
    ensures
        r@ == postcard_encode_address(addr@),
{
    postcard::to_allocvec(&essential_types::ContentAddress(*addr)).unwrap()
}

/// The blob text of a content address.
pub open spec fn spec_encode_address(addr: Seq<u8>) -> Seq<char> {
    spec_hex_encode_upper(postcard_encode_address(addr))
}

/// The blob text of a content address.
pub fn encode_address(addr: &[u8; 32]) -> (r: String)
    ensures
        r@ == spec_encode_address(addr@),
{
    let b = postcard_encode_address_bytes(addr);
    encode_bytes(&b)
}

/// A statement with positional arguments.
fn stmt(sql: Sql, args: Vec<SqlArg>) -> (r: Statement)
    ensures
        stmt_view(r) == (sql, ArgsView::Positional(args@.map_values(|x: SqlArg| arg_view(x)))),
{
    Statement { sql, args: SqlArgs::Positional(args) }
}

/// Two statements.
fn two(a: Statement, b: Statement) -> (r: Vec<Statement>)
    ensures
        r@ == seq![a, b],
{
    let mut v: Vec<Statement> = Vec::new();
    v.push(a);
    v.push(b);
    assert(v@ =~= seq![a, b]);
    v
}

/// Two arguments.
fn args2(a: SqlArg, b: SqlArg) -> (r: Vec<SqlArg>)
    ensures
        r@.map_values(|x: SqlArg| arg_view(x)) == seq![arg_view(a), arg_view(b)],
{
    let ghost (av, bv) = (arg_view(a), arg_view(b));
    let mut v: Vec<SqlArg> = Vec::new();
    v.push(a);
    v.push(b);
    assert(v@.map_values(|x: SqlArg| arg_view(x)) =~= seq![av, bv]);
    v
}

/// Three arguments.
fn args3(a: SqlArg, b: SqlArg, c: SqlArg) -> (r: Vec<SqlArg>)
    ensures
        r@.map_values(|x: SqlArg| arg_view(x)) == seq![arg_view(a), arg_view(b), arg_view(c)],
{
    let ghost (av, bv, cv) = (arg_view(a), arg_view(b), arg_view(c));
    let mut v: Vec<SqlArg> = Vec::new();
    v.push(a);
    v.push(b);
    v.push(c);
    assert(v@.map_values(|x: SqlArg| arg_view(x)) =~= seq![av, bv, cv]);
    v
}

/// Four arguments.
fn args4(a: SqlArg, b: SqlArg, c: SqlArg, d: SqlArg) -> (r: Vec<SqlArg>)
    ensures
        r@.map_values(|x: SqlArg| arg_view(x)) == seq![
            arg_view(a),
            arg_view(b),
            arg_view(c),
            arg_view(d),
        ],
{
    let ghost (av, bv, cv, dv) = (arg_view(a), arg_view(b), arg_view(c), arg_view(d));
    let mut v: Vec<SqlArg> = Vec::new();
    v.push(a);
    v.push(b);
    v.push(c);
    v.push(d);
    assert(v@.map_values(|x: SqlArg| arg_view(x)) =~= seq![av, bv, cv, dv]);
    v
}

/// The statements that write a value at a key of a contract's state and read
/// the value it replaces: the read, then a delete where the value is empty,
/// else an update.
pub open spec fn spec_state_update(addr: Seq<u8>, key: Seq<i64>, value: Seq<i64>) -> Seq<
    (Sql, ArgsView),
> {
    let a = ArgView::Text(spec_encode_address(addr));
    let k = ArgView::Text(spec_encode_words(key));
    let v = spec_encode_words(value);
    seq![(Sql::QueryGetState, ArgsView::Positional(seq![a, k])), if value.len() == 0 {
        (Sql::UpdateDeleteState, ArgsView::Positional(seq![a, k]))
    } else {
        (Sql::UpdateUpdateState, ArgsView::Positional(seq![k, ArgView::Text(v), a]))
    }]
}

/// The statements that write a value at a key of a contract's state and read
/// the value it replaces.
pub fn state_update(addr: &[u8; 32], key: &Vec<i64>, value: &Vec<i64>) -> (r: Vec<Statement>)
    ensures
        stmts_view(r@) == spec_state_update(addr@, key@, value@),
{
    let a = encode_address(addr);
    let k = encode_words(key);
    let v = encode_words(value);
    let ghost (av, kv, vv) = (a@, k@, v@);
    let s1 = stmt(Sql::QueryGetState, args2(SqlArg::Text(a.clone()), SqlArg::Text(k.clone())));
    let s2 = if value.len() == 0 {
        stmt(Sql::UpdateDeleteState, args2(SqlArg::Text(a), SqlArg::Text(k)))
    } else {
        stmt(Sql::UpdateUpdateState, args3(SqlArg::Text(k), SqlArg::Text(v), SqlArg::Text(a)))
    };
    let ghost (v1, v2) = (stmt_view(s1), stmt_view(s2));
    let r = two(s1, s2);
    assert(stmts_view(r@) =~= seq![v1, v2]);
    assert(stmts_view(r@) =~= spec_state_update(addr@, key@, value@));
    r
}

/// Positional arguments.
pub open spec fn pos(a: Seq<ArgView>) -> ArgsView {
    ArgsView::Positional(a)
}

/// A text argument.
pub open spec fn txt(s: Seq<char>) -> ArgView {
    ArgView::Text(s)
}

/// An integer argument.
pub open spec fn num(n: u64) -> ArgView {
    ArgView::Int(n)
}

/// The statements of several state updates, in order.
pub open spec fn spec_state_updates(us: Seq<(Seq<u8>, Seq<i64>, Seq<i64>)>) -> Seq<(Sql, ArgsView)>
    decreases us.len(),
{
    if us.len() == 0 {
        Seq::empty()
    } else {
        spec_state_updates(us.drop_last()) + spec_state_update(
            us.last().0,
            us.last().1,
            us.last().2,
        )
    }
}

/// Views of state updates.
pub open spec fn updates_view(v: Seq<([u8; 32], Vec<i64>, Vec<i64>)>) -> Seq<
    (Seq<u8>, Seq<i64>, Seq<i64>),
> {
    v.map_values(|u: ([u8; 32], Vec<i64>, Vec<i64>)| (u.0@, u.1@, u.2@))
}

/// Appends statements.
fn append_stmts(v: &mut Vec<Statement>, more: Vec<Statement>)
    ensures
        stmts_view(final(v)@) == stmts_view(old(v)@) + stmts_view(more@),
{
    let mut more = more;
    let ghost (a, b) = (old(v)@, more@);
    v.append(&mut more);
    assert(stmts_view(v@) =~= stmts_view(a) + stmts_view(b));
}

/// The statements that write a batch of state updates, each reading the value
/// it replaces, in order.
pub fn update_state_batch(updates: &Vec<([u8; 32], Vec<i64>, Vec<i64>)>) -> (r: Vec<Statement>)
    ensures
        stmts_view(r@) == spec_state_updates(updates_view(updates@)),
{
    let ghost uv = updates_view(updates@);
    let mut out: Vec<Statement> = Vec::new();
    let mut i: usize = 0;
    assert(uv.take(0) =~= Seq::<(Seq<u8>, Seq<i64>, Seq<i64>)>::empty());
    assert(stmts_view(out@) =~= Seq::<(Sql, ArgsView)>::empty());
    while i < updates.len()
        invariant
            i <= updates@.len(),
            uv == updates_view(updates@),
            stmts_view(out@) == spec_state_updates(uv.take(i as int)),
        decreases updates@.len() - i,
    {
        assert(uv.take(i + 1).drop_last() =~= uv.take(i as int));
        assert(uv.take(i + 1).last() == uv[i as int]);
        let u = &updates[i];
        let more = state_update(&u.0, &u.1, &u.2);
        append_stmts(&mut out, more);
        i = i + 1;
    }
    assert(uv.take(updates@.len() as int) =~= uv);
    out
}

/// The statements that move failed solutions from the pool, in order: per
/// solution, a copy into the failed solutions with its reason and the time,
/// then its removal from the pool.
pub open spec fn spec_move_to_failed(fs: Seq<(Seq<u8>, Seq<u8>)>, now: Timestamp) -> Seq<
    (Sql, ArgsView),
>
    decreases fs.len(),
{
    if fs.len() == 0 {
        Seq::empty()
    } else {
        let h = txt(spec_encode_hash(fs.last().0));
        spec_move_to_failed(fs.drop_last(), now) + seq![
            (Sql::InsertCopyToFailed, pos(seq![txt(spec_hex_encode_upper(fs.last().1)), num(now.secs), num(now.nanos as u64), h])),
            (Sql::UpdateDeleteFromSolutionsPool, pos(seq![h])),
        ]
    }
}

/// Views of failed solutions: the hash and the encoded reason.
pub open spec fn failed_view(v: Seq<([u8; 32], Vec<u8>)>) -> Seq<(Seq<u8>, Seq<u8>)> {
    v.map_values(|f: ([u8; 32], Vec<u8>)| (f.0@, f.1@))
}

/// One argument.
fn args1(a: SqlArg) -> (r: Vec<SqlArg>)
    ensures
        r@.map_values(|x: SqlArg| arg_view(x)) == seq![arg_view(a)],
{
    let ghost av = arg_view(a);
    let mut v: Vec<SqlArg> = Vec::new();
    v.push(a);
    assert(v@.map_values(|x: SqlArg| arg_view(x)) =~= seq![av]);
    v
}

/// The statements that move failed solutions, each given by its hash and the
/// encoding of its fail reason, from the pool at time `now`.
pub fn move_solutions_to_failed(solutions: &Vec<([u8; 32], Vec<u8>)>, now: Timestamp) -> (r: Vec<
    Statement,
>)
    ensures
        stmts_view(r@) == spec_move_to_failed(failed_view(solutions@), now),
{
    let ghost fv = failed_view(solutions@);
    let mut out: Vec<Statement> = Vec::new();
    let mut i: usize = 0;
    assert(fv.take(0) =~= Seq::<(Seq<u8>, Seq<u8>)>::empty());
    assert(stmts_view(out@) =~= Seq::<(Sql, ArgsView)>::empty());
    while i < solutions.len()
        invariant
            i <= solutions@.len(),
            fv == failed_view(solutions@),
            stmts_view(out@) == spec_move_to_failed(fv.take(i as int), now),
        decreases solutions@.len() - i,
    {
        assert(fv.take(i + 1).drop_last() =~= fv.take(i as int));
        assert(fv.take(i + 1).last() == fv[i as int]);
        let (hash, reason) = (&solutions[i].0, &solutions[i].1);
        let h = encode_hash(hash);
        let r = encode_bytes(reason);
        let s1 = stmt(
            Sql::InsertCopyToFailed,
            args4(SqlArg::Text(r), SqlArg::Int(now.secs), SqlArg::Int(now.nanos as u64), SqlArg::Text(h.clone())),
        );
        let s2 = stmt(Sql::UpdateDeleteFromSolutionsPool, args1(SqlArg::Text(h)));
        let ghost (v1, v2) = (stmt_view(s1), stmt_view(s2));
        let more = two(s1, s2);
        assert(stmts_view(more@) =~= seq![v1, v2]);
        append_stmts(&mut out, more);
        i = i + 1;
    }
    assert(fv.take(solutions@.len() as int) =~= fv);
    out
}

/// The statements that move solved solutions into a new batch, in order: the
/// batch with the time, per solution a copy into the batch and its removal
/// from the pool, and last the removal of the batch should it be empty.
pub open spec fn spec_move_to_solved_items(hs: Seq<Seq<u8>>) -> Seq<(Sql, ArgsView)>
    decreases hs.len(),
{
    if hs.len() == 0 {
        Seq::empty()
    } else {
        let h = txt(spec_encode_hash(hs.last()));
        spec_move_to_solved_items(hs.drop_last()) + seq![
            (Sql::InsertCopyToSolved, pos(seq![h])),
            (Sql::UpdateDeleteFromSolutionsPool, pos(seq![h])),
        ]
    }
}

/// All the statements of moving solved solutions; none for no solutions.
pub open spec fn spec_move_to_solved(hs: Seq<Seq<u8>>, now: Timestamp) -> Seq<(Sql, ArgsView)> {
    if hs.len() == 0 {
        Seq::empty()
    } else {
        seq![(Sql::InsertBatch, pos(seq![num(now.secs), num(now.nanos as u64)]))]
            + spec_move_to_solved_items(hs) + seq![(Sql::UpdateDeleteEmptyBatch, pos(Seq::empty()))]
    }
}

/// Per hash, in order, the two statements of moving it: two statements each.
proof fn lemma_move_items(hs: Seq<Seq<u8>>)
    ensures
        spec_move_to_solved_items(hs).len() == 2 * hs.len(),
        forall|j: int|
            0 <= j < hs.len() ==> {
                &&& spec_move_to_solved_items(hs)[2 * j] == (
                    Sql::InsertCopyToSolved,
                    pos(seq![txt(spec_encode_hash(#[trigger] hs[j]))]),
                )
                &&& spec_move_to_solved_items(hs)[2 * j + 1] == (
                    Sql::UpdateDeleteFromSolutionsPool,
                    pos(seq![txt(spec_encode_hash(hs[j]))]),
                )
            },
    decreases hs.len(),
{
    if hs.len() > 0 {
        let d = hs.drop_last();
        lemma_move_items(d);
        let items = spec_move_to_solved_items(hs);
        let prev = spec_move_to_solved_items(d);
        assert forall|j: int| 0 <= j < hs.len() implies {
            &&& items[2 * j] == (Sql::InsertCopyToSolved, pos(seq![txt(spec_encode_hash(#[trigger] hs[j]))]))
            &&& items[2 * j + 1] == (
                Sql::UpdateDeleteFromSolutionsPool,
                pos(seq![txt(spec_encode_hash(hs[j]))]),
            )
        } by {
            if j < d.len() {
                assert(d[j] == hs[j]);
                assert(items[2 * j] == prev[2 * j]);
                assert(items[2 * j + 1] == prev[2 * j + 1]);
            }
        }
    }
}

/// Committing solved solutions moves every one of them out of the pool: for
/// solutions with hashes `hs` the statements open one batch at `now`, then
/// for each hash in turn copy its solution into the batch and right after
/// delete it from the pool, then drop the batch if it stayed empty; two
/// statements per hash and two more. No solutions give no statements.
pub proof fn lemma_move_to_solved_each(hs: Seq<Seq<u8>>, now: Timestamp)
    ensures
        hs.len() == 0 ==> spec_move_to_solved(hs, now).len() == 0,
        hs.len() > 0 ==> {
            let r = spec_move_to_solved(hs, now);
            &&& r.len() == 2 * hs.len() + 2
            &&& r[0] == (Sql::InsertBatch, pos(seq![num(now.secs), num(now.nanos as u64)]))
            &&& r[r.len() - 1] == (Sql::UpdateDeleteEmptyBatch, pos(Seq::<ArgView>::empty()))
            &&& forall|j: int|
                0 <= j < hs.len() ==> {
                    &&& r[2 * j + 1] == (
                        Sql::InsertCopyToSolved,
                        pos(seq![txt(spec_encode_hash(#[trigger] hs[j]))]),
                    )
                    &&& r[2 * j + 2] == (
                        Sql::UpdateDeleteFromSolutionsPool,
                        pos(seq![txt(spec_encode_hash(hs[j]))]),
                    )
                }
        },
{
    lemma_move_items(hs);
    if hs.len() > 0 {
        let r = spec_move_to_solved(hs, now);
        let items = spec_move_to_solved_items(hs);
        assert forall|j: int| 0 <= j < hs.len() implies {
            &&& r[2 * j + 1] == (Sql::InsertCopyToSolved, pos(seq![txt(spec_encode_hash(#[trigger] hs[j]))]))
            &&& r[2 * j + 2] == (
                Sql::UpdateDeleteFromSolutionsPool,
                pos(seq![txt(spec_encode_hash(hs[j]))]),
            )
        } by {
            assert(r[2 * j + 1] == items[2 * j]);
            assert(r[2 * j + 2] == items[2 * j + 1]);
        }
    }
}

/// Views of hashes.
pub open spec fn hashes_view(v: Seq<[u8; 32]>) -> Seq<Seq<u8>> {
    v.map_values(|h: [u8; 32]| h@)
}

/// The statements that move the solutions with these hashes into a new batch
/// made at time `now`.
pub fn move_solutions_to_solved(solutions: &Vec<[u8; 32]>, now: Timestamp) -> (r: Vec<Statement>)
    ensures
        stmts_view(r@) == spec_move_to_solved(hashes_view(solutions@), now),
{
    let mut out: Vec<Statement> = Vec::new();
    if solutions.len() == 0 {
        assert(stmts_view(out@) =~= Seq::<(Sql, ArgsView)>::empty());
        return out;
    }
    let ghost hv = hashes_view(solutions@);
    let first = stmt(Sql::InsertBatch, args2(SqlArg::Int(now.secs), SqlArg::Int(now.nanos as u64)));
    let ghost fv = stmt_view(first);
    out.push(first);
    assert(stmts_view(out@) =~= seq![fv]);
    let mut i: usize = 0;
    assert(hv.take(0) =~= Seq::<Seq<u8>>::empty());
    assert(seq![fv] + spec_move_to_solved_items(hv.take(0)) =~= seq![fv]);
    while i < solutions.len()
        invariant
            i <= solutions@.len(),
            hv == hashes_view(solutions@),
            stmts_view(out@) == seq![fv] + spec_move_to_solved_items(hv.take(i as int)),
        decreases solutions@.len() - i,
    {
        assert(hv.take(i + 1).drop_last() =~= hv.take(i as int));
        assert(hv.take(i + 1).last() == hv[i as int]);
        let h = encode_hash(&solutions[i]);
        let s1 = stmt(Sql::InsertCopyToSolved, args1(SqlArg::Text(h.clone())));
        let s2 = stmt(Sql::UpdateDeleteFromSolutionsPool, args1(SqlArg::Text(h)));
        let ghost (v1, v2) = (stmt_view(s1), stmt_view(s2));
        let more = two(s1, s2);
        assert(stmts_view(more@) =~= seq![v1, v2]);
        let ghost before = stmts_view(out@);
        append_stmts(&mut out, more);
        assert(stmts_view(out@) =~= seq![fv] + spec_move_to_solved_items(hv.take(i + 1)));
        i = i + 1;
    }
    assert(hv.take(solutions@.len() as int) =~= hv);
    let last = stmt(Sql::UpdateDeleteEmptyBatch, Vec::new());
    let ghost lv = stmt_view(last);
    assert(lv == (Sql::UpdateDeleteEmptyBatch, pos(Seq::empty()))) by {
        assert(Seq::<SqlArg>::empty().map_values(|x: SqlArg| arg_view(x)) =~= Seq::<ArgView>::empty());
    }
    let ghost before = stmts_view(out@);
    out.push(last);
    assert(stmts_view(out@) =~= before.push(lv));
    out
}

/// The statements that commit a block: moving the failed solutions, moving
/// the solved ones, then writing the state updates, each part in order.
pub open spec fn spec_commit_block(
    failed: Seq<(Seq<u8>, Seq<u8>)>,
    solved: Seq<Seq<u8>>,
    updates: Seq<(Seq<u8>, Seq<i64>, Seq<i64>)>,
    now: Timestamp,
) -> Seq<(Sql, ArgsView)> {
    spec_move_to_failed(failed, now) + spec_move_to_solved(solved, now) + spec_state_updates(updates)
}

/// The statements that commit a block made at time `now`, to be sent as one
/// transaction; none where there is nothing to commit.
pub fn commit_block(
    failed: &Vec<([u8; 32], Vec<u8>)>,
    solved: &Vec<[u8; 32]>,
    updates: &Vec<([u8; 32], Vec<i64>, Vec<i64>)>,
    now: Timestamp,
) -> (r: Vec<Statement>)
    ensures
        stmts_view(r@) == spec_commit_block(
            failed_view(failed@),
            hashes_view(solved@),
            updates_view(updates@),
            now,
        ),
{
    let mut out = move_solutions_to_failed(failed, now);
    let s = move_solutions_to_solved(solved, now);
    append_stmts(&mut out, s);
    let u = update_state_batch(updates);
    append_stmts(&mut out, u);
    out
}

/// The statements that add a solution, by its hash and its encoding, to the
/// solutions and to the pool.
pub open spec fn spec_insert_solution_into_pool(hash: Seq<u8>, solution: Seq<u8>) -> Seq<(Sql, ArgsView)> {
    seq![
        (Sql::InsertSolutions, pos(seq![txt(spec_encode_hash(hash)), txt(spec_hex_encode_upper(solution))])),
        (Sql::InsertSolutionsPool, pos(seq![txt(spec_encode_hash(hash))])),
    ]
}

/// The statements that add a solution, given by its hash and encoding, to
/// the pool.
pub fn insert_solution_into_pool(hash: &[u8; 32], solution: &Vec<u8>) -> (r: Vec<Statement>)
    ensures
        stmts_view(r@) == spec_insert_solution_into_pool(hash@, solution@),
{
    let h = encode_hash(hash);
    let s = encode_bytes(solution);
    let s1 = stmt(Sql::InsertSolutions, args2(SqlArg::Text(h.clone()), SqlArg::Text(s)));
    let s2 = stmt(Sql::InsertSolutionsPool, args1(SqlArg::Text(h)));
    let ghost (v1, v2) = (stmt_view(s1), stmt_view(s2));
    let r = two(s1, s2);
    assert(stmts_view(r@) =~= seq![v1, v2]);
    r
}

/// The statements that insert a contract made at time `now`: the contract
/// with its signature and time, then per predicate, in the order given, the
/// predicate with its address and the pairing of contract and predicate.
pub open spec fn spec_insert_contract(
    addr: Seq<u8>,
    signature: Seq<u8>,
    predicates: Seq<(Seq<u8>, Seq<u8>)>,
    now: Timestamp,
) -> Seq<(Sql, ArgsView)> {
    seq![
        (Sql::InsertContract, pos(seq![txt(spec_encode_address(addr)), txt(spec_hex_encode_upper(signature)), num(now.secs), num(now.nanos as u64)])),
    ] + spec_predicate_inserts(addr, predicates)
}

/// Per predicate, in order: the predicate with its address, then the pairing.
pub open spec fn spec_predicate_inserts(addr: Seq<u8>, predicates: Seq<(Seq<u8>, Seq<u8>)>) -> Seq<
    (Sql, ArgsView),
>
    decreases predicates.len(),
{
    if predicates.len() == 0 {
        Seq::empty()
    } else {
        let p = predicates.last();
        let h = txt(spec_encode_address(p.0));
        spec_predicate_inserts(addr, predicates.drop_last()) + seq![
            (Sql::InsertContract, pos(seq![txt(spec_hex_encode_upper(p.1)), h])),
            (Sql::InsertContractPairing, pos(seq![txt(spec_encode_address(addr)), h])),
        ]
    }
}

/// The statements that insert a contract with address `addr`, the encoding
/// of its signature, and its predicates, in the order given, made at time
/// `now`.
fn contract_inserts(
    addr: &[u8; 32],
    signature: &Vec<u8>,
    predicates: &Vec<StoredPredicate>,
    now: Timestamp,
) -> (r: Vec<Statement>)
    ensures
        stmts_view(r@) == spec_insert_contract(addr@, signature@, stored_views(predicates@), now),
{
    let a = encode_address(addr);
    let sig = encode_bytes(signature);
    let first = stmt(
        Sql::InsertContract,
        args4(SqlArg::Text(a.clone()), SqlArg::Text(sig), SqlArg::Int(now.secs), SqlArg::Int(now.nanos as u64)),
    );
    let ghost fv = stmt_view(first);
    let mut out: Vec<Statement> = Vec::new();
    out.push(first);
    assert(stmts_view(out@) =~= seq![fv]);
    let ghost pv = stored_views(predicates@);
    let mut i: usize = 0;
    assert(pv.take(0) =~= Seq::<(Seq<u8>, Seq<u8>)>::empty());
    assert(seq![fv] + spec_predicate_inserts(addr@, pv.take(0)) =~= seq![fv]);
    while i < predicates.len()
        invariant
            i <= predicates@.len(),
            pv == stored_views(predicates@),
            a@ == spec_encode_address(addr@),
            stmts_view(out@) == seq![fv] + spec_predicate_inserts(addr@, pv.take(i as int)),
        decreases predicates@.len() - i,
    {
        assert(pv.take(i + 1).drop_last() =~= pv.take(i as int));
        assert(pv.take(i + 1).last() == pv[i as int]);
        let h = encode_address(&predicates[i].0);
        let pb = encode_bytes(&predicates[i].1);
        let s1 = stmt(Sql::InsertContract, args2(SqlArg::Text(pb), SqlArg::Text(h.clone())));
        let s2 = stmt(Sql::InsertContractPairing, args2(SqlArg::Text(a.clone()), SqlArg::Text(h)));
        let ghost (v1, v2) = (stmt_view(s1), stmt_view(s2));
        let more = two(s1, s2);
        assert(stmts_view(more@) =~= seq![v1, v2]);
        append_stmts(&mut out, more);
        assert(stmts_view(out@) =~= seq![fv] + spec_predicate_inserts(addr@, pv.take(i + 1)));
        i = i + 1;
    }
    assert(pv.take(predicates@.len() as int) =~= pv);
    out
}

/// The statements that insert a signed contract made at time `now`, given
/// the encoding of its signature, its salt and its predicates, each by its
/// content address and encoding. The predicates are first put in order of
/// their addresses; the contract's address is computed from them in that
/// order; then come the statements of [`spec_insert_contract`]. Of orders
/// that satisfy these clauses there is one only
/// ([`crate::contract::lemma_order_determined`]).
pub fn insert_contract(
    signature: &Vec<u8>,
    salt: &[u8; 32],
    predicates: Vec<StoredPredicate>,
    now: Timestamp,
) -> (r: Vec<Statement>)
    ensures
        exists|sorted: Seq<(Seq<u8>, Seq<u8>)>|
            {
                &&& by_address(sorted)
                &&& full_addresses(sorted)
                &&& forall|k: Seq<u8>| #[trigger]
                    at_address(sorted, k) == at_address(stored_views(predicates@), k)
                &&& stmts_view(r@) == spec_insert_contract(
                    contract_addr_of(addresses_of(sorted), salt@),
                    signature@,
                    sorted,
                    now,
                )
            },
{
    let ghost given = stored_views(predicates@);
    let sorted = sort_by_address(predicates);
    let addr = contract_addr(&sorted, salt);
    let r = contract_inserts(&addr, signature, &sorted, now);
    assert(forall|k: Seq<u8>| #[trigger] at_address(stored_views(sorted@), k) == at_address(given, k));
    r
}

/// The statements that add a solution set to the pool, by its hash and its
/// encoding.
pub fn insert_solution_set(set: &essential_types::SolutionSet) -> (r: Vec<Statement>)
    ensures
        stmts_view(r@) == spec_insert_solution_into_pool(solution_set_hash_of(*set), solution_set_bytes_of(*set)),
{
    let hash = hash_solution_set(set);
    let bytes = encode_solution_set(set);
    insert_solution_into_pool(&hash, &bytes)
}

/// The statements that store a signed contract made at time `now`, from the
/// contract itself: its signature and predicates are encoded and each
/// predicate is addressed by its content, then stored as
/// [`insert_contract`] states.
pub fn insert_contract_statements(
    signature: &essential_types::Signature,
    salt: &[u8; 32],
    predicates: &Vec<essential_types::predicate::Predicate>,
    now: Timestamp,
) -> (r: Vec<Statement>)
    ensures
        exists|sorted: Seq<(Seq<u8>, Seq<u8>)>|
            {
                &&& by_address(sorted)
                &&& full_addresses(sorted)
                &&& forall|k: Seq<u8>| #[trigger]
                    at_address(sorted, k) == at_address(spec_stored_of(predicates@), k)
                &&& stmts_view(r@) == spec_insert_contract(
                    contract_addr_of(addresses_of(sorted), salt@),
                    signature_bytes_of(*signature),
                    sorted,
                    now,
                )
            },
{
    let sig = encode_signature(signature);
    let stored = stored_predicates(predicates);
    insert_contract(&sig, salt, stored, now)
}

/// A statement without arguments.
fn bare(sql: Sql) -> (r: Statement)
    ensures
        stmt_view(r) == (sql, pos(Seq::empty())),
{
    let r = stmt(sql, Vec::new());
    assert(Seq::<SqlArg>::empty().map_values(|x: SqlArg| arg_view(x)) =~= Seq::<ArgView>::empty());
    r
}

/// The statements that create the tables and indexes, in order.
pub fn create_tables() -> (r: Vec<Statement>)
    ensures
        stmts_view(r@) == seq![
            Sql::CreatePredicates,
            Sql::CreateContracts,
            Sql::CreateContractPairing,
            Sql::CreateSolutions,
            Sql::CreateSolutionsPool,
            Sql::CreateSolved,
            Sql::CreateContractState,
            Sql::CreateBatch,
            Sql::CreateFailedSolutions,
            Sql::IndexSolvedBatchId,
            Sql::IndexSolvedContentHash,
            Sql::IndexFailedSolutionsContentHash,
        ].map_values(|q: Sql| (q, pos(Seq::empty()))),
{
    let mut v: Vec<Statement> = Vec::new();
    v.push(bare(Sql::CreatePredicates));
    v.push(bare(Sql::CreateContracts));
    v.push(bare(Sql::CreateContractPairing));
    v.push(bare(Sql::CreateSolutions));
    v.push(bare(Sql::CreateSolutionsPool));
    v.push(bare(Sql::CreateSolved));
    v.push(bare(Sql::CreateContractState));
    v.push(bare(Sql::CreateBatch));
    v.push(bare(Sql::CreateFailedSolutions));
    v.push(bare(Sql::IndexSolvedBatchId));
    v.push(bare(Sql::IndexSolvedContentHash));
    v.push(bare(Sql::IndexFailedSolutionsContentHash));
    assert(stmts_view(v@) =~= seq![
        Sql::CreatePredicates,
        Sql::CreateContracts,
        Sql::CreateContractPairing,
        Sql::CreateSolutions,
        Sql::CreateSolutionsPool,
        Sql::CreateSolved,
        Sql::CreateContractState,
        Sql::CreateBatch,
        Sql::CreateFailedSolutions,
        Sql::IndexSolvedBatchId,
        Sql::IndexSolvedContentHash,
        Sql::IndexFailedSolutionsContentHash,
    ].map_values(|q: Sql| (q, pos(Seq::empty()))));
    v
}

/// The statement that reads the state at a key of a contract.
pub fn query_state(addr: &[u8; 32], key: &Vec<i64>) -> (r: Statement)
    ensures
        stmt_view(r) == (Sql::QueryGetState, pos(seq![txt(spec_encode_address(addr@)), txt(spec_encode_words(key@))])),
{
    stmt(Sql::QueryGetState, args2(SqlArg::Text(encode_address(addr)), SqlArg::Text(encode_words(key))))
}

/// The statement that reads a predicate of a contract.
pub fn get_predicate(contract: &[u8; 32], predicate: &[u8; 32]) -> (r: Statement)
    ensures
        stmt_view(r) == (Sql::QueryGetPredicate, pos(seq![txt(spec_encode_address(contract@)), txt(spec_encode_address(predicate@))])),
{
    stmt(
        Sql::QueryGetPredicate,
        args2(SqlArg::Text(encode_address(contract)), SqlArg::Text(encode_address(predicate))),
    )
}

/// The statements that read a contract: its signature, then its predicates.
pub fn get_contract(addr: &[u8; 32]) -> (r: Vec<Statement>)
    ensures
        stmts_view(r@) == seq![
            (Sql::QueryGetContractSignature, pos(seq![txt(spec_encode_address(addr@))])),
            (Sql::QueryGetContract, pos(seq![txt(spec_encode_address(addr@))])),
        ],
{
    let a = encode_address(addr);
    let s1 = stmt(Sql::QueryGetContractSignature, args1(SqlArg::Text(a.clone())));
    let s2 = stmt(Sql::QueryGetContract, args1(SqlArg::Text(a)));
    let ghost (v1, v2) = (stmt_view(s1), stmt_view(s2));
    let r = two(s1, s2);
    assert(stmts_view(r@) =~= seq![v1, v2]);
    r
}

/// The statements that read a solution and its outcomes.
pub fn get_solution(hash: &[u8; 32]) -> (r: Vec<Statement>)
    ensures
        stmts_view(r@) == seq![
            (Sql::QueryGetSolution, pos(seq![txt(spec_encode_hash(hash@))])),
            (Sql::QueryGetSolutionOutcomes, pos(seq![txt(spec_encode_hash(hash@)), txt(spec_encode_hash(hash@))])),
        ],
{
    let h = encode_hash(hash);
    let s1 = stmt(Sql::QueryGetSolution, args1(SqlArg::Text(h.clone())));
    let s2 = stmt(Sql::QueryGetSolutionOutcomes, args2(SqlArg::Text(h.clone()), SqlArg::Text(h)));
    let ghost (v1, v2) = (stmt_view(s1), stmt_view(s2));
    let r = two(s1, s2);
    assert(stmts_view(r@) =~= seq![v1, v2]);
    r
}

/// The statement that prunes failed solutions older than `older_than_secs`.
pub fn prune_failed_solutions(older_than_secs: u64) -> (r: Statement)
    ensures
        stmt_view(r) == (Sql::UpdatePruneFailed, pos(seq![num(older_than_secs)])),
{
    stmt(Sql::UpdatePruneFailed, args1(SqlArg::Int(older_than_secs)))
}

/// The page asked for: the first page unless one is given.
pub open spec fn spec_page(page: Option<usize>) -> u64 {
    match page {
        Some(p) => p as u64,
        None => 0,
    }
}

/// Named arguments for a page.
fn page_args(page: Option<usize>) -> (r: Vec<(String, SqlArg)>)
    ensures
        r@.map_values(|x: (String, SqlArg)| (x.0@, arg_view(x.1))) == seq![
            ("page_size"@, num(PAGE_SIZE as u64)),
            ("page_number"@, num(spec_page(page))),
        ],
{
    let p: u64 = match page {
        Some(p) => p as u64,
        None => 0,
    };
    let mut v: Vec<(String, SqlArg)> = Vec::new();
    v.push((String::from_str("page_size"), SqlArg::Int(PAGE_SIZE as u64)));
    v.push((String::from_str("page_number"), SqlArg::Int(p)));
    assert(v@.map_values(|x: (String, SqlArg)| (x.0@, arg_view(x.1))) =~= seq![
        ("page_size"@, num(PAGE_SIZE as u64)),
        ("page_number"@, num(spec_page(page))),
    ]);
    v
}

/// The statement that lists a page of the solutions pool.
pub fn list_solutions_pool(page: Option<usize>) -> (r: Statement)
    ensures
        stmt_view(r) == (Sql::QueryListSolutionsPool, ArgsView::Named(seq![
            ("page_size"@, num(PAGE_SIZE as u64)),
            ("page_number"@, num(spec_page(page))),
        ])),
{
    Statement { sql: Sql::QueryListSolutionsPool, args: SqlArgs::Named(page_args(page)) }
}

/// The statement that lists a page of failed solutions.
pub fn list_failed_solutions_pool(page: Option<usize>) -> (r: Statement)
    ensures
        stmt_view(r) == (Sql::QueryListFailedSolutions, ArgsView::Named(seq![
            ("page_size"@, num(PAGE_SIZE as u64)),
            ("page_number"@, num(spec_page(page))),
        ])),
{
    Statement { sql: Sql::QueryListFailedSolutions, args: SqlArgs::Named(page_args(page)) }
}

/// The statement that lists a page of contracts, within a time range where one
/// is given.
pub fn list_contracts(range: Option<(Timestamp, Timestamp)>, page: Option<usize>) -> (r: Statement)
    ensures
        match range {
            Some((start, end)) => stmt_view(r) == (Sql::QueryListContractsByTime, pos(seq![
                num(start.secs),
                num(start.nanos as u64),
                num(end.secs),
                num(end.nanos as u64),
                num(PAGE_SIZE as u64),
                num(spec_page(page)),
            ])),
            None => stmt_view(r) == (Sql::QueryListContracts, ArgsView::Named(seq![
                ("page_size"@, num(PAGE_SIZE as u64)),
                ("page_number"@, num(spec_page(page))),
            ])),
        },
{
    match range {
        Some((start, end)) => {
            let p: u64 = match page {
                Some(p) => p as u64,
                None => 0,
            };
            let mut v: Vec<SqlArg> = Vec::new();
            v.push(SqlArg::Int(start.secs));
            v.push(SqlArg::Int(start.nanos as u64));
            v.push(SqlArg::Int(end.secs));
            v.push(SqlArg::Int(end.nanos as u64));
            v.push(SqlArg::Int(PAGE_SIZE as u64));
            v.push(SqlArg::Int(p));
            assert(v@.map_values(|x: SqlArg| arg_view(x)) =~= seq![
                num(start.secs),
                num(start.nanos as u64),
                num(end.secs),
                num(end.nanos as u64),
                num(PAGE_SIZE as u64),
                num(spec_page(page)),
            ]);
            stmt(Sql::QueryListContractsByTime, v)
        },
        None => Statement { sql: Sql::QueryListContracts, args: SqlArgs::Named(page_args(page)) },
    }
}

/// The statement that reads the rows of the latest block.
pub fn get_latest_block() -> (r: Statement)
    ensures
        stmt_view(r) == (Sql::QueryGetLatestBlock, pos(Seq::empty())),
{
    bare(Sql::QueryGetLatestBlock)
}

/// The statement that lists a page of blocks, within a time range where one is
/// given.
pub fn list_blocks(range: Option<(Timestamp, Timestamp)>, page: Option<usize>) -> (r: Statement)
    ensures
        match range {
            Some((start, end)) => stmt_view(r) == (Sql::QueryListWinningBatchesByTime, ArgsView::Named(seq![
                ("page_size"@, num(PAGE_SIZE as u64)),
                ("page_number"@, num(spec_page(page))),
                ("start_seconds"@, num(start.secs)),
                ("start_nanos"@, num(start.nanos as u64)),
                ("end_seconds"@, num(end.secs)),
                ("end_nanos"@, num(end.nanos as u64)),
            ])),
            None => stmt_view(r) == (Sql::QueryListWinningBatches, ArgsView::Named(seq![
                ("page_size"@, num(PAGE_SIZE as u64)),
                ("page_number"@, num(spec_page(page))),
            ])),
        },
{
    match range {
        Some((start, end)) => {
            let p: u64 = match page {
                Some(p) => p as u64,
                None => 0,
            };
            let mut v: Vec<(String, SqlArg)> = Vec::new();
            v.push((String::from_str("page_size"), SqlArg::Int(PAGE_SIZE as u64)));
            v.push((String::from_str("page_number"), SqlArg::Int(p)));
            v.push((String::from_str("start_seconds"), SqlArg::Int(start.secs)));
            v.push((String::from_str("start_nanos"), SqlArg::Int(start.nanos as u64)));
            v.push((String::from_str("end_seconds"), SqlArg::Int(end.secs)));
            v.push((String::from_str("end_nanos"), SqlArg::Int(end.nanos as u64)));
            assert(v@.map_values(|x: (String, SqlArg)| (x.0@, arg_view(x.1))) =~= seq![
                ("page_size"@, num(PAGE_SIZE as u64)),
                ("page_number"@, num(spec_page(page))),
                ("start_seconds"@, num(start.secs)),
                ("start_nanos"@, num(start.nanos as u64)),
                ("end_seconds"@, num(end.secs)),
                ("end_nanos"@, num(end.nanos as u64)),
            ]);
            Statement { sql: Sql::QueryListWinningBatchesByTime, args: SqlArgs::Named(v) }
        },
        None => Statement { sql: Sql::QueryListWinningBatches, args: SqlArgs::Named(page_args(page)) },
    }
}

} // verus!
