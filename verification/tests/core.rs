use essential_server::blob::{
    blob_bytes, decode_hash, decode_words, encode_bytes, encode_hash, encode_words,
};
use essential_server::block::{
    block_solutions, block_state_mutations, duration_secs, next_block_number,
    next_block_timestamp, BlockBuilder, Config, Timestamp,
};
use essential_server::contract::{address_le, contract_addr, sort_by_address};
use essential_server::json::{find_entry, lookup, take_entry, JsonNumber, JsonValue};
use essential_server::keys::{next_key, KeyRange, KeyRangeError};
use essential_server::outcome::{solution_outcome, CheckOutcome, SolutionFailReason, SolutionOutcome};
use essential_server::query::{
    record_reads, recorder_enabled, same_key, NextRun, QueryRuns, Recording, select_output, QueryStateReadsOutput, Slots, SlotsRequest,
    StateReadRequestType,
};
use essential_server::solution::{
    contains_all_contract, same_address, solution_mutations, validate_contract, ContractRead, Empty,
    ReadContractError,
    PredicateAddress, SolutionError,
};
use essential_server::sql::{
    create_tables, insert_contract, insert_solution_into_pool, prune_failed_solutions,
    state_update, Sql, SqlArg, SqlArgs, Statement,
};
use essential_server::streams::{next_data, resume_after_wait, GetData, NextData, StreamState};
use essential_server::values::{RqliteError, StorageError, ValuesError};
use essential_server::vm::{
    jump, jump_if, out_of_gas, read_word_range_ext_args, step_op_ctrl_flow, write_words_to_memory, ControlFlowError,
    ControlFlowOp, GasExec, GasLimit, Memory, MemoryError, OpAsyncError, OpError, OpSyncError,
    OpStart, OutOfGasError, PollStep, Stack, StackError, StateReadError, Vm,
};
use essential_server::vm::{finish_state_read, run_sync_ops, start_state_read, Op, OpAsync, StateReadRequest};
use essential_server::program::{parse_program, program_ops, ProgramError};
use essential_server::transition::{checked_mutations, create_post_state, decide, StateView};
use essential_state_asm::{Alu, Constraint, Op as AsmOp, Stack as AsmStack, TotalControlFlow};
use essential_types::predicate::{Node, Predicate};
use std::time::Duration;

fn vm_with(words: Vec<i64>) -> Vm {
    let mut vm = Vm::new();
    vm.stack = Stack::from_words(words).unwrap();
    vm
}

#[test]
fn hex_blob_roundtrip() {
    let bytes = vec![0x00, 0x1f, 0xab, 0xff];
    let text = encode_bytes(&bytes);
    assert_eq!(text, "001FABFF");
    assert_eq!(blob_bytes(&text), Some(bytes));
    assert_eq!(blob_bytes(&"001fabff".to_string()), Some(vec![0x00, 0x1f, 0xab, 0xff]));
    assert_eq!(blob_bytes(&"abc".to_string()), None);
    assert_eq!(blob_bytes(&"zz".to_string()), None);
}

#[test]
fn words_and_hashes_roundtrip() {
    let words = vec![1i64, -2, i64::MAX, i64::MIN];
    let text = encode_words(&words);
    assert_eq!(text, hex::encode_upper(postcard::to_allocvec(&words).unwrap()));
    assert_eq!(decode_words(&text), Some(words));
    let hash = [9u8; 32];
    let text = encode_hash(&hash);
    assert_eq!(text, hex::encode_upper(postcard::to_allocvec(&hash).unwrap()));
    assert_eq!(decode_hash(&text), Some(hash));
    assert_eq!(decode_hash(&encode_bytes(&vec![1, 2])), None);
    assert_eq!(decode_words(&"xx".to_string()), None);
}

#[test]
fn json_entries() {
    let mut entries = vec![
        ("a".to_string(), JsonValue::Bool(true)),
        ("b".to_string(), JsonValue::Number(JsonNumber::PosInt(2))),
        ("a".to_string(), JsonValue::Null),
    ];
    assert_eq!(find_entry(&entries, "a"), Some(0));
    assert_eq!(find_entry(&entries, "c"), None);
    assert_eq!(lookup(&entries, "b"), Some(&JsonValue::Number(JsonNumber::PosInt(2))));
    assert_eq!(take_entry(&mut entries, "a"), Some(JsonValue::Bool(true)));
    assert_eq!(entries.len(), 2);
    assert_eq!(JsonNumber::NegInt(-1).as_u64(), None);
    assert_eq!(JsonNumber::PosInt(7).as_u64(), Some(7));
    assert_eq!(JsonNumber::Float(1.0f64.to_bits()).as_u64(), None);
}

#[test]
fn next_key_counts_up() {
    assert_eq!(next_key(vec![0, 0]), Some(vec![0, 1]));
    assert_eq!(next_key(vec![0, i64::MAX]), Some(vec![1, i64::MIN]));
    assert_eq!(next_key(vec![i64::MAX, i64::MAX]), None);
    assert_eq!(next_key(vec![]), None);
    assert_eq!(next_key(vec![-1]), Some(vec![0]));
}

#[test]
fn key_range_reads_consecutive_keys() {
    let mut range = KeyRange::new(vec![5, i64::MAX], 3);
    let mut keys = Vec::new();
    let mut n = 0;
    while let Some(k) = range.next_query() {
        keys.push(k.clone());
        range.record(vec![n]).unwrap();
        n += 1;
    }
    assert_eq!(keys, vec![vec![5, i64::MAX], vec![6, i64::MIN], vec![6, i64::MIN + 1]]);
    let reads = range.into_reads();
    assert_eq!(reads[2], (vec![6, i64::MIN + 1], vec![2]));

    let mut last = KeyRange::new(vec![i64::MAX], 1);
    assert_eq!(last.next_query(), Some(&vec![i64::MAX]));
    assert_eq!(last.record(vec![1]), Err(KeyRangeError::NoNextKey));
}

#[test]
fn stack_limits() {
    let mut s = Stack::new();
    assert_eq!(s.pop(), Err(StackError::Empty));
    s.push(1).unwrap();
    s.push(2).unwrap();
    assert_eq!(s.pop2(), Ok([1, 2]));
    assert_eq!(s.len(), 0);
    let mut full = Stack::from_words(vec![0; 4096]).unwrap();
    assert_eq!(full.push(1), Err(StackError::Overflow));
    assert!(Stack::from_words(vec![0; 4097]).is_none());
    let mut four = Stack::from_words(vec![1, 2, 3, 4, 5]).unwrap();
    assert_eq!(four.pop4(), Ok([2, 3, 4, 5]));
    assert_eq!(four.words(), &vec![1]);
}

#[test]
fn memory_limit() {
    let mut m = Memory::new();
    m.extend(vec![Some(1), None]).unwrap();
    assert_eq!(m.len(), 2);
    assert_eq!(m.extend(vec![None; 4095]), Err(MemoryError::Overflow));
    assert_eq!(m.into_slots(), vec![Some(1), None]);
}

#[test]
fn control_flow_steps() {
    let mut vm = vm_with(vec![7]);
    assert_eq!(jump(&mut vm), Ok(7));
    let mut vm = vm_with(vec![-1]);
    assert_eq!(jump(&mut vm), Err(StackError::IndexOutOfBounds));
    let mut vm = vm_with(vec![]);
    assert_eq!(jump(&mut vm), Err(StackError::Empty));

    let mut vm = vm_with(vec![9, 1]);
    vm.pc = 3;
    assert_eq!(jump_if(&mut vm), Ok(9));
    let mut vm = vm_with(vec![9, 0]);
    vm.pc = 3;
    assert_eq!(jump_if(&mut vm), Ok(4));
    let mut vm = vm_with(vec![9, 2]);
    assert_eq!(
        jump_if(&mut vm),
        Err(OpSyncError::ControlFlow(ControlFlowError::InvalidJumpIfCondition(2)))
    );
    let mut vm = vm_with(vec![1]);
    assert_eq!(jump_if(&mut vm), Err(OpSyncError::Stack(StackError::Empty)));

    let mut vm = vm_with(vec![4]);
    assert_eq!(step_op_ctrl_flow(ControlFlowOp::Halt, &mut vm), Ok(None));
    assert_eq!(step_op_ctrl_flow(ControlFlowOp::Jump, &mut vm), Ok(Some(4)));
}

#[test]
fn words_land_in_memory() {
    let mut vm = Vm::new();
    write_words_to_memory::<()>(&mut vm, vec![Some(1)]).unwrap();
    write_words_to_memory::<()>(&mut vm, vec![None, Some(3)]).unwrap();
    assert_eq!(vm.stack.words(), &vec![0, 1]);
    assert_eq!(vm.into_state_slots(), vec![Some(1), None, Some(3)]);
    let mut vm = Vm::new();
    assert_eq!(
        write_words_to_memory::<()>(&mut vm, vec![None; 4097]),
        Err(OpAsyncError::Memory(MemoryError::Overflow))
    );
}

#[test]
fn gas_is_charged_and_yields() {
    let limit = GasLimit { per_yield: 2, total: 5 };
    let mut gas = GasExec::from(limit);
    let mut vm = Vm::new();
    let next = gas.charge::<()>(0, 1).unwrap();
    assert_eq!(gas.complete_sync::<()>(&mut vm, next, Ok(Some(1))), PollStep::Continue);
    let next = gas.charge::<()>(1, 1).unwrap();
    assert_eq!(gas.complete_sync::<()>(&mut vm, next, Ok(Some(2))), PollStep::Yield);
    assert_eq!(gas.next_yield_threshold(), 4);
    assert_eq!(vm.pc, 2);
    assert_eq!(
        gas.charge::<()>(2, 4),
        Err(StateReadError::Op(
            2,
            OpError::OutOfGas(OutOfGasError { spent: 2, op_gas: 4, limit: 5 })
        ))
    );
    let next = gas.charge::<()>(2, 3).unwrap();
    assert_eq!(gas.complete_sync::<()>(&mut vm, next, Ok(None)), PollStep::Done(5));
    assert_eq!(gas.spent(), 5);
    assert_eq!(out_of_gas(&gas, 1), OutOfGasError { spent: 5, op_gas: 1, limit: 5 });

    let mut gas = GasExec::from(limit);
    let next = gas.charge::<()>(0, 1).unwrap();
    assert_eq!(
        gas.complete_async::<()>(&mut vm, next, Err(OpAsyncError::StateRead(()))),
        Err(StateReadError::Op(2, OpError::Async(OpAsyncError::StateRead(()))))
    );
    assert_eq!(gas.spent(), 0);
    assert_eq!(gas.complete_async::<()>(&mut vm, next, Ok(3)), Ok(()));
    assert_eq!((gas.spent(), gas.next_yield_threshold(), vm.pc), (1, 3, 3));
    let u = GasLimit::unlimited();
    assert_eq!((u.per_yield, u.total), (4096, u64::MAX));
}

#[test]
fn block_time_and_number() {
    let t = |secs, nanos| Timestamp { secs, nanos };
    assert_eq!(next_block_timestamp(None, Some(t(5, 1))), t(5, 1));
    assert_eq!(next_block_timestamp(None, None), t(0, 0));
    assert_eq!(next_block_timestamp(Some(t(10, 5)), Some(t(3, 0))), t(11, 5));
    assert_eq!(next_block_timestamp(Some(t(10, 5)), Some(t(20, 0))), t(20, 0));
    assert_eq!(next_block_timestamp(Some(t(10, 5)), None), t(11, 5));
    assert_eq!(
        next_block_timestamp(Some(t(u64::MAX, 0)), None),
        t(u64::MAX, 999_999_999)
    );
    assert_eq!(next_block_number(None), 0);
    assert_eq!(next_block_number(Some(4)), 5);
    assert_eq!(next_block_number(Some(u64::MAX)), u64::MAX);
    assert_eq!(duration_secs(3), Duration::from_secs(3));
    assert_eq!(Config::default().run_loop_interval, Duration::from_secs(10));
}

#[test]
fn block_building() {
    assert_eq!(block_solutions(Some(0), vec![1, 2]), vec![0, 1, 2]);
    assert_eq!(block_solutions(None, vec![1, 2]), vec![1, 2]);

    let mut b: BlockBuilder<u8, u8> = BlockBuilder::new(true);
    b.push_valid(0);
    b.push_failed(9);
    assert_eq!(b.finish(), (vec![], vec![9]));
    let mut b: BlockBuilder<u8, u8> = BlockBuilder::new(true);
    b.push_valid(0);
    b.push_valid(1);
    assert_eq!(b.finish(), (vec![0, 1], vec![]));
    let mut b: BlockBuilder<u8, u8> = BlockBuilder::new(false);
    b.push_valid(1);
    assert_eq!(b.finish(), (vec![1], vec![]));

    assert_eq!(
        block_state_mutations(3, 1700),
        vec![(vec![0], vec![3]), (vec![1], vec![1700])]
    );
}

#[test]
fn stream_error_ends_the_stream() {
    let r = next_data::<(), &str>(StreamState::default(), 100, Err("error"));
    let state = match r {
        NextData::Failed(e, s) => {
            assert_eq!(e, "error");
            s
        }
        other => panic!("{:?}", other),
    };
    assert!(state.is_done());
    assert!(matches!(next_data::<(), &str>(state, 100, Ok(vec![()])), NextData::Done));
}

#[test]
fn stream_waits_without_new_data() {
    let r = next_data::<(), ()>(StreamState::default(), 100, Ok(vec![]));
    assert!(matches!(r, NextData::Wait(_)));
    let r = next_data::<(), ()>(StreamState::default(), 100, Ok(vec![()]));
    match r {
        NextData::Data(items, s) => {
            assert_eq!(items.len(), 1);
            assert_eq!(s.position(), Some((0, 1)));
        }
        other => panic!("{:?}", other),
    }
}

#[test]
fn stream_pages() {
    let step = |state: StreamState, n: usize| match next_data::<usize, ()>(
        state,
        3,
        Ok((0..n).collect()),
    ) {
        NextData::Data(items, s) => (items, s),
        other => panic!("{:?}", other),
    };
    let (items, s) = step(StreamState::default(), 1);
    assert_eq!((items, s.position()), (vec![0], Some((0, 1))));
    let (items, s) = step(s, 3);
    assert_eq!((items, s.position()), (vec![1, 2], Some((1, 0))));
    let (items, s) = step(s, 3);
    assert_eq!((items, s.position()), (vec![0, 1, 2], Some((2, 0))));
    let (items, s) = step(s, 2);
    assert_eq!((items, s.position()), (vec![0, 1], Some((2, 2))));
    assert!(matches!(next_data::<usize, ()>(s, 3, Ok(vec![0, 1])), NextData::Wait(_)));

    let s = StreamState::new(Some(4), Some(Duration::from_secs(1)), Some(2));
    assert_eq!(
        s.get_data(),
        Some(GetData { page: 4, time: Some(Duration::from_secs(1)), number: Some(2) })
    );
    assert_eq!((s.start_time(), s.start_number()), (Some(Duration::from_secs(1)), Some(2)));
}

#[test]
fn predicates_sort_by_address() {
    let a = [1u8; 32];
    let mut b = [1u8; 32];
    b[31] = 0;
    assert!(address_le(&b, &a));
    assert!(!address_le(&a, &b));
    assert!(address_le(&a, &a));
    let sorted = sort_by_address(vec![(a, vec![1]), (b, vec![2]), (a, vec![3]), ([0u8; 32], vec![4])]);
    assert_eq!(
        sorted,
        vec![([0u8; 32], vec![4]), (b, vec![2]), (a, vec![1]), (a, vec![3])]
    );
    let addr1 = contract_addr(&sorted, &[0u8; 32]);
    let addr2 = contract_addr(&sorted, &[1u8; 32]);
    assert_ne!(addr1, addr2);
    let expected = essential_hash::contract_addr::from_predicate_addrs(
        sorted.iter().map(|p| essential_types::ContentAddress(p.0)),
        &[0u8; 32],
    );
    assert_eq!(addr1, expected.0);
}

fn text_args(s: &Statement) -> Vec<String> {
    match &s.args {
        SqlArgs::Positional(a) => a
            .iter()
            .map(|x| match x {
                SqlArg::Text(t) => t.clone(),
                SqlArg::Int(n) => n.to_string(),
            })
            .collect(),
        SqlArgs::Named(a) => a.iter().map(|(k, _)| k.clone()).collect(),
    }
}

#[test]
fn contract_statements_follow_address_order() {
    let hi = [2u8; 32];
    let lo = [1u8; 32];
    let stmts = insert_contract(
        &vec![5, 5],
        &[0u8; 32],
        vec![(hi, vec![0xAA]), (lo, vec![0xBB])],
        Timestamp { secs: 7, nanos: 8 },
    );
    let sqls: Vec<Sql> = stmts.iter().map(|s| s.sql).collect();
    assert_eq!(
        sqls,
        vec![
            Sql::InsertContract,
            Sql::InsertContract,
            Sql::InsertContractPairing,
            Sql::InsertContract,
            Sql::InsertContractPairing
        ]
    );
    assert_eq!(text_args(&stmts[1])[0], "BB");
    assert_eq!(text_args(&stmts[3])[0], "AA");
    assert_eq!(text_args(&stmts[0])[1], "0505");
    assert_eq!(text_args(&stmts[0])[2..], ["7".to_string(), "8".to_string()]);
}

#[test]
fn state_and_pool_statements() {
    let stmts = state_update(&[3u8; 32], &vec![1], &vec![2]);
    assert_eq!(stmts.len(), 2);
    assert_eq!(stmts[0].sql, Sql::QueryGetState);
    assert_eq!(stmts[1].sql, Sql::UpdateUpdateState);
    let args = text_args(&stmts[1]);
    assert_eq!(args[0], hex::encode_upper(postcard::to_allocvec(&vec![1i64]).unwrap()));
    assert_eq!(args[1], hex::encode_upper(postcard::to_allocvec(&vec![2i64]).unwrap()));
    let pool = insert_solution_into_pool(&[4u8; 32], &vec![0xC0]);
    assert_eq!(pool[0].sql, Sql::InsertSolutions);
    assert_eq!(text_args(&pool[0])[1], "C0");
    assert_eq!(pool[1].sql, Sql::InsertSolutionsPool);
    assert_eq!(prune_failed_solutions(60).args, SqlArgs::Positional(vec![SqlArg::Int(60)]));
    let tables = create_tables();
    assert_eq!(tables.len(), 12);
    assert_eq!(tables[0].sql.path(), "create/predicates.sql");
}

#[test]
fn solutions_need_their_predicates() {
    let a = PredicateAddress { contract: [1; 32], predicate: [2; 32] };
    let b = PredicateAddress { contract: [1; 32], predicate: [3; 32] };
    assert_eq!(contains_all_contract(&vec![a, a], &vec![b, a]), Ok(()));
    assert_eq!(contains_all_contract(&vec![a, b], &vec![a]), Err(SolutionError::MissingPredicate));
    assert_eq!(validate_contract(&vec![], &vec![]), Ok(()));
    assert!(same_address(&[1; 32], &[1; 32]));
    assert!(!same_address(&[1; 32], &[2; 32]));
    let e = PredicateAddress::empty();
    assert_eq!((e.contract, e.predicate), ([0; 32], [0; 32]));
    let muts = solution_mutations(vec![
        ([1; 32], vec![(vec![1], vec![10]), (vec![2], vec![20])]),
        ([2; 32], vec![]),
        ([3; 32], vec![(vec![3], vec![])]),
    ]);
    assert_eq!(
        muts,
        vec![([1; 32], vec![1], vec![10]), ([1; 32], vec![2], vec![20]), ([3; 32], vec![3], vec![])]
    );
}

#[test]
fn outcomes_are_reported() {
    assert_eq!(
        SolutionFailReason::ConstraintsFailed("bad".to_string()).to_string(),
        "ConstraintsFailed: bad"
    );
    assert_eq!(SolutionFailReason::NotComposable.to_string(), "NotComposable");
    let r = solution_outcome(Some(vec![
        CheckOutcome::Success(3),
        CheckOutcome::Fail(SolutionFailReason::NotComposable),
    ]));
    assert_eq!(
        r,
        vec![SolutionOutcome::Success(3), SolutionOutcome::Fail("NotComposable".to_string())]
    );
    assert!(solution_outcome(None).is_empty());
}

#[test]
fn query_output_selection() {
    assert!(recorder_enabled(StateReadRequestType::Reads));
    assert!(recorder_enabled(StateReadRequestType::All(SlotsRequest::Pre)));
    assert!(!recorder_enabled(StateReadRequestType::Slots(SlotsRequest::All)));
    let slots = || Slots { pre: vec![vec![1]], post: vec![vec![2]] };
    assert_eq!(
        select_output(StateReadRequestType::Slots(SlotsRequest::Post), 0u8, slots()),
        QueryStateReadsOutput::Slots(Slots { pre: vec![], post: vec![vec![2]] })
    );
    assert_eq!(
        select_output(StateReadRequestType::All(SlotsRequest::Pre), 5u8, slots()),
        QueryStateReadsOutput::All(5, Slots { pre: vec![vec![1]], post: vec![] })
    );
    assert_eq!(
        select_output(StateReadRequestType::Reads, 5u8, slots()),
        QueryStateReadsOutput::Reads(5)
    );
}

#[test]
fn storage_errors_wrap() {
    let e = RqliteError::ReadError(StorageError::Values(ValuesError::NoRows));
    assert_eq!(e, RqliteError::ReadError(StorageError::Values(ValuesError::NoRows)));
    assert_ne!(StorageError::NoNextKey, StorageError::Request("x".to_string()));
}

#[test]
fn contract_read_reads_every_address() {
    let a = PredicateAddress { contract: [1; 32], predicate: [2; 32] };
    let b = PredicateAddress { contract: [1; 32], predicate: [3; 32] };
    let mut read: ContractRead<u8> = ContractRead::new(vec![a, b]);
    assert_eq!(read.next_address(), Some(a));
    read.record(Ok(Some(7))).unwrap();
    assert_eq!(read.next_address(), Some(b));
    read.record(Ok(Some(8))).unwrap();
    assert_eq!(read.next_address(), None);
    let got = read.finish();
    assert_eq!(got, vec![(a, 7), (b, 8)]);
    let available: Vec<PredicateAddress> = got.iter().map(|(x, _)| *x).collect();
    assert_eq!(validate_contract(&vec![a, b], &available), Ok(()));

    let mut read: ContractRead<u8> = ContractRead::new(vec![a, b]);
    assert_eq!(read.record(Ok(None)), Err(ReadContractError::Missing(a)));
    let mut read: ContractRead<u8> = ContractRead::new(vec![b]);
    assert_eq!(
        read.record(Err("down".to_string())),
        Err(ReadContractError::Storage(b, "down".to_string()))
    );
}

#[test]
fn control_flow_jump_if_out_of_range_target() {
    let mut vm = vm_with(vec![-5, 1]);
    assert_eq!(
        step_op_ctrl_flow(ControlFlowOp::JumpIf, &mut vm),
        Err(OpSyncError::Stack(StackError::IndexOutOfBounds))
    );
    let mut vm = vm_with(vec![6, 1]);
    assert_eq!(step_op_ctrl_flow(ControlFlowOp::JumpIf, &mut vm), Ok(Some(6)));
    assert_eq!(vm.stack.len(), 0);
}

#[test]
fn recording_keeps_last_read_per_key() {
    assert!(same_key(&vec![1, 2], &vec![1, 2]));
    assert!(!same_key(&vec![1, 2], &vec![1]));
    let mut rec = Recording::new();
    let values = record_reads(
        &mut rec,
        true,
        &[1; 32],
        vec![(vec![0], vec![10]), (vec![1], vec![11]), (vec![0], vec![12])],
    );
    assert_eq!(values, vec![vec![10], vec![11], vec![12]]);
    let values = record_reads(&mut rec, false, &[2; 32], vec![(vec![0], vec![20])]);
    assert_eq!(values, vec![vec![20]]);
    rec.record(&[2; 32], vec![5], vec![50]);
    let mut reads = rec.into_reads();
    reads.sort();
    assert_eq!(
        reads,
        vec![
            ([1; 32], vec![0], vec![12]),
            ([1; 32], vec![1], vec![11]),
            ([2; 32], vec![5], vec![50]),
        ]
    );
}

#[test]
fn external_read_arguments() {
    let mut vm = vm_with(vec![0, 0, 0, 0x0102, 10, 11, 12, 13, 3]);
    let args = read_word_range_ext_args::<()>(&mut vm).unwrap();
    assert_eq!(args.num_words, 3);
    assert_eq!(args.key, [10, 11, 12, 13]);
    let mut expected = [0u8; 32];
    expected[30] = 1;
    expected[31] = 2;
    assert_eq!(args.set_addr, expected);
    assert_eq!(vm.stack.len(), 0);
}

#[test]
fn addresses_are_encoded_as_blobs() {
    let addr = [0xABu8; 32];
    let text = essential_server::sql::encode_address(&addr);
    let expected = postcard::to_allocvec(&essential_types::ContentAddress(addr)).unwrap();
    assert_eq!(text, hex::encode_upper(expected));
    assert_ne!(text, hex::encode_upper(addr));
}

#[test]
fn stream_hands_out_items_in_order() {
    let (items, state) = match next_data::<i32, ()>(StreamState::default(), 3, Ok(vec![1])) {
        NextData::Data(items, s) => (items, s),
        other => panic!("{:?}", other),
    };
    assert_eq!(items, vec![1]);
    match next_data::<i32, ()>(state, 3, Ok(vec![1, 2, 3])) {
        NextData::Data(items, s) => {
            assert_eq!(items, vec![2, 3]);
            assert_eq!(s.position(), Some((1, 0)));
        }
        other => panic!("{:?}", other),
    }
}

#[test]
fn operations_start_or_finish() {
    let gas = GasExec::from(GasLimit { per_yield: 10, total: 3 });
    assert_eq!(gas.start_op::<()>(4, None), OpStart::Finished(0));
    assert_eq!(gas.start_op::<()>(4, Some(Ok(2))), OpStart::Charged(2));
    assert_eq!(
        gas.start_op::<()>(4, Some(Ok(4))),
        OpStart::Failed(StateReadError::Op(
            4,
            OpError::OutOfGas(OutOfGasError { spent: 0, op_gas: 4, limit: 3 })
        ))
    );
    assert_eq!(
        gas.start_op::<()>(1, Some(Err("bad op".to_string()))),
        OpStart::Failed(StateReadError::Op(1, OpError::FromBytes("bad op".to_string())))
    );
}

#[test]
fn contract_predicates_are_addressed_by_contract() {
    let p1 = ([1u8; 32], vec![1u8]);
    let p2 = ([2u8; 32], vec![2u8]);
    let c1 = ([0u8; 32], vec![p1.clone(), p2.clone()]);
    let c2 = ([9u8; 32], vec![p2.clone()]);
    let r = essential_server::contract::contract_predicates(vec![c1.clone(), c2.clone()]);
    let a1 = contract_addr(&c1.1, &c1.0);
    let a2 = contract_addr(&c2.1, &c2.0);
    assert_eq!(
        r,
        vec![
            (PredicateAddress { contract: a1, predicate: [1; 32] }, vec![1]),
            (PredicateAddress { contract: a1, predicate: [2; 32] }, vec![2]),
            (PredicateAddress { contract: a2, predicate: [2; 32] }, vec![2]),
        ]
    );
    assert_ne!(a1, a2);
}

#[test]
fn programs_run_until_they_halt() {
    let ops = vec![
        Op::Push(2),
        Op::Push(3),
        Op::Alu(essential_state_asm::Alu::Add),
        Op::ControlFlow(ControlFlowOp::Halt),
        Op::Push(9),
    ];
    let costs = vec![1, 1, 1, 1, 1];
    let mut vm = Vm::new();
    let mut gas = GasExec::from(GasLimit { per_yield: 100, total: 100 });
    assert_eq!(run_sync_ops::<()>(&mut vm, &mut gas, &ops, &costs, 10), PollStep::Done(4));
    assert_eq!(vm.stack.words(), &vec![5]);
    assert_eq!(gas.spent(), 4);

    let mut vm = Vm::new();
    let mut gas = GasExec::from(GasLimit { per_yield: 100, total: 100 });
    assert_eq!(run_sync_ops::<()>(&mut vm, &mut gas, &vec![Op::Push(1)], &vec![7], 10), PollStep::Done(7));

    let mut vm = Vm::new();
    let mut gas = GasExec::from(GasLimit { per_yield: 100, total: 100 });
    assert_eq!(run_sync_ops::<()>(&mut vm, &mut gas, &ops, &costs, 0), PollStep::Continue);
    assert_eq!(vm.pc, 0);
}

#[test]
fn programs_yield_and_run_out_of_gas() {
    let ops = vec![Op::Push(2), Op::Push(3), Op::Pop, Op::Pop];
    let costs = vec![1, 1, 1, 1];
    let mut vm = Vm::new();
    let mut gas = GasExec::from(GasLimit { per_yield: 2, total: 100 });
    assert_eq!(run_sync_ops::<()>(&mut vm, &mut gas, &ops, &costs, 10), PollStep::Yield);
    assert_eq!(vm.pc, 2);
    assert_eq!(vm.stack.words(), &vec![2, 3]);
    assert_eq!(run_sync_ops::<()>(&mut vm, &mut gas, &ops, &costs, 10), PollStep::Yield);
    assert_eq!(run_sync_ops::<()>(&mut vm, &mut gas, &ops, &costs, 10), PollStep::Done(4));
    assert!(vm.stack.words().is_empty());

    let mut vm = Vm::new();
    let mut gas = GasExec::from(GasLimit { per_yield: 100, total: 2 });
    assert_eq!(
        run_sync_ops::<()>(&mut vm, &mut gas, &ops, &costs, 10),
        PollStep::Fail(StateReadError::Op(
            2,
            OpError::OutOfGas(OutOfGasError { spent: 2, op_gas: 1, limit: 2 })
        ))
    );
    assert_eq!(vm.pc, 2);
}

#[test]
fn programs_hand_out_state_reads_and_fail_where_they_stand() {
    let ops = vec![Op::Push(1), Op::Async(OpAsync::StateReadWordRange)];
    let mut vm = Vm::new();
    let mut gas = GasExec::from(GasLimit { per_yield: 100, total: 100 });
    assert_eq!(
        run_sync_ops::<()>(&mut vm, &mut gas, &ops, &vec![1, 2], 10),
        PollStep::Await(OpAsync::StateReadWordRange, 3)
    );
    assert_eq!((vm.pc, gas.spent()), (1, 1));

    let mut vm = Vm::new();
    let mut gas = GasExec::from(GasLimit { per_yield: 100, total: 100 });
    let r = run_sync_ops::<()>(
        &mut vm,
        &mut gas,
        &vec![Op::Push(1), Op::Alu(essential_state_asm::Alu::Add)],
        &vec![1, 1],
        10,
    );
    assert!(matches!(r, PollStep::Fail(StateReadError::Op(1, OpError::Sync(OpSyncError::Constraint(_))))));
    assert_eq!(vm.pc, 1);

    let mut vm = Vm::new();
    let mut gas = GasExec::from(GasLimit { per_yield: 100, total: 100 });
    assert_eq!(
        run_sync_ops::<()>(&mut vm, &mut gas, &vec![Op::Pop], &vec![1], 10),
        PollStep::Fail(StateReadError::Op(0, OpError::Sync(OpSyncError::Stack(StackError::Empty))))
    );
}

#[test]
fn pending_writes_are_read_back() {
    let mut state = StateView::new();
    assert_eq!(state.query(&[1; 32], &vec![0]), None);
    state.apply_state(&[1; 32], vec![0], vec![5]);
    state.apply_state(&[2; 32], vec![0], vec![6]);
    state.apply_state(&[1; 32], vec![0], vec![7]);
    assert_eq!(state.query(&[1; 32], &vec![0]), Some(vec![7]));
    assert_eq!(state.query(&[2; 32], &vec![0]), Some(vec![6]));
    assert_eq!(state.query(&[2; 32], &vec![1]), None);
    let post = create_post_state(&state, &vec![([2; 32], vec![1], vec![8])]);
    assert_eq!(post.query(&[2; 32], &vec![1]), Some(vec![8]));
    assert_eq!(state.query(&[2; 32], &vec![1]), None);
    assert_eq!(post.updates().len(), 4);
}

#[test]
fn checked_solutions_are_kept_or_failed() {
    let mut builder: BlockBuilder<u32, (u32, SolutionFailReason)> = BlockBuilder::new(false);
    let mut state = StateView::new();
    let ok = checked_mutations(vec![([1; 32], vec![(vec![0], vec![4])])], Ok(()));
    assert_eq!(ok, Ok(vec![([1; 32], vec![0], vec![4])]));
    decide(&mut builder, &mut state, 1, ok);
    let bad = checked_mutations(vec![([1; 32], vec![(vec![0], vec![9])])], Err("no".to_string()));
    assert_eq!(bad, Err("no".to_string()));
    decide(&mut builder, &mut state, 2, bad);
    assert_eq!(state.query(&[1; 32], &vec![0]), Some(vec![4]));
    let (valid, failed) = builder.finish();
    assert_eq!(valid, vec![1]);
    assert_eq!(failed, vec![(2, SolutionFailReason::ConstraintsFailed("no".to_string()))]);
}

#[test]
fn empty_values_delete_state() {
    let stmts = state_update(&[3u8; 32], &vec![1], &vec![]);
    assert_eq!(stmts.len(), 2);
    assert_eq!(stmts[0].sql, Sql::QueryGetState);
    assert_eq!(stmts[1].sql, Sql::UpdateDeleteState);
}

#[test]
fn read_errors_name_the_address() {
    let a = PredicateAddress { contract: [0xAB; 32], predicate: [0x01; 32] };
    let text = ReadContractError::Missing(a).to_string();
    assert_eq!(
        text,
        format!(
            "Failed to retrieve contract from storage. contract: {}, predicate: {}",
            "AB".repeat(32),
            "01".repeat(32)
        )
    );
    let text = ReadContractError::Storage(a, "gone".to_string()).to_string();
    assert!(text.starts_with("Failed to retrieve contract from storage"));
    assert!(text.ends_with(". Error gone"));
}

#[test]
fn streams_end_when_notifications_stop() {
    let state = StreamState::new(Some(0), None, None);
    assert_eq!(resume_after_wait(state, Ok::<(), ()>(())), Some(StreamState::new(Some(0), None, None)));
    let state = StreamState::new(Some(0), None, None);
    assert_eq!(resume_after_wait(state, Err(())), None);
}

#[test]
fn solution_sets_and_contracts_are_checked() {
    let empty = essential_types::SolutionSet { solutions: vec![] };
    let expected = essential_check::solution::check_set(&empty).unwrap_err().to_string();
    assert_eq!(essential_server::solution::check_solution_set(&empty), Err(expected));
    let unsigned = essential_types::contract::SignedContract {
        contract: essential_types::contract::Contract { predicates: vec![], salt: [0; 32] },
        signature: essential_types::Signature([0; 64], 0),
    };
    let expected = essential_check::predicate::check_signed_contract(&unsigned).unwrap_err().to_string();
    assert_eq!(essential_server::contract::check_contract(&unsigned), Err(expected));
}

#[test]
fn programs_read_state_through_the_caller() {
    let ops = vec![
        Op::Push(1),
        Op::Push(2),
        Op::Push(3),
        Op::Push(4),
        Op::Push(2),
        Op::Async(OpAsync::StateReadWordRange),
        Op::ControlFlow(ControlFlowOp::Halt),
    ];
    let costs = vec![1; 7];
    let mut vm = Vm::new();
    let mut gas = GasExec::from(GasLimit { per_yield: 100, total: 100 });
    let step = run_sync_ops::<()>(&mut vm, &mut gas, &ops, &costs, 100);
    assert_eq!(step, PollStep::Await(OpAsync::StateReadWordRange, 6));
    let req = start_state_read::<()>(&mut vm, OpAsync::StateReadWordRange, [5; 32]).unwrap();
    assert_eq!(req, StateReadRequest { set_addr: [5; 32], key: [1, 2, 3, 4], num_words: 2 });
    assert!(vm.stack.words().is_empty());
    finish_state_read::<()>(&mut gas, &mut vm, 6, Ok(vec![Some(7), None])).unwrap();
    assert_eq!((vm.pc, gas.spent()), (6, 6));
    assert_eq!(vm.stack.words(), &vec![0]);
    assert_eq!(run_sync_ops::<()>(&mut vm, &mut gas, &ops, &costs, 100), PollStep::Done(7));
    assert_eq!(vm.into_state_slots(), vec![Some(7), None]);

    let mut vm = vm_with(vec![1]);
    let mut gas = GasExec::from(GasLimit { per_yield: 100, total: 100 });
    assert_eq!(
        start_state_read::<()>(&mut vm, OpAsync::StateReadWordRange, [5; 32]),
        Err(OpAsyncError::Stack(StackError::Empty))
    );
    assert_eq!(
        finish_state_read::<&str>(&mut gas, &mut vm, 3, Err("down")),
        Err(StateReadError::Op(0, OpError::Async(OpAsyncError::StateRead("down"))))
    );
    assert_eq!(gas.spent(), 0);
}

fn two_predicates() -> Vec<Predicate> {
    vec![
        Predicate::default(),
        Predicate {
            nodes: vec![Node { edge_start: u16::MAX, program_address: essential_types::ContentAddress([3; 32]) }],
            edges: vec![],
        },
    ]
}

#[test]
fn contracts_are_stored_from_their_values() {
    let predicates = two_predicates();
    let signature = essential_types::Signature([7; 64], 1);
    let salt = [9u8; 32];
    let now = Timestamp { secs: 7, nanos: 8 };
    let stored: Vec<([u8; 32], Vec<u8>)> = predicates
        .iter()
        .map(|p| (essential_hash::content_addr(p).0, postcard::to_allocvec(p).unwrap()))
        .collect();
    assert_eq!(essential_server::content::stored_predicates(&predicates), stored.clone());
    assert_ne!(stored[0].0, stored[1].0);
    let expected = essential_server::sql::insert_contract(
        &postcard::to_allocvec(&signature).unwrap(),
        &salt,
        stored,
        now,
    );
    assert_eq!(
        essential_server::sql::insert_contract_statements(&signature, &salt, &predicates, now),
        expected
    );
    let contract = essential_types::contract::Contract { predicates: predicates.clone(), salt };
    assert_eq!(
        essential_server::content::contract_content_address(&salt, &predicates),
        essential_hash::content_addr(&contract).0
    );
}

#[test]
fn solution_sets_are_stored_and_hashed() {
    let set = essential_types::SolutionSet { solutions: vec![] };
    let hash = essential_hash::hash(&set);
    let expected = insert_solution_into_pool(&hash, &postcard::to_allocvec(&set).unwrap());
    assert_eq!(essential_server::sql::insert_solution_set(&set), expected);
    assert_eq!(essential_server::content::solution_set_address(&set), essential_hash::content_addr(&set).0);
    assert_eq!(essential_server::content::solution_set_hashes(&vec![set.clone()]), vec![hash]);
    assert_eq!(
        essential_server::content::failed_hashes(vec![(set, 5u8)]),
        vec![(hash, 5u8)]
    );
}

#[test]
fn failing_programs_keep_their_stack() {
    let ops = vec![Op::Push(6), Op::Push(7), Op::Alu(essential_state_asm::Alu::Mul)];
    let mut vm = Vm::new();
    let mut gas = GasExec::from(GasLimit { per_yield: 4096, total: 2 });
    assert_eq!(
        run_sync_ops::<()>(&mut vm, &mut gas, &ops, &vec![1, 1, 1], 10),
        PollStep::Fail(StateReadError::Op(
            2,
            OpError::OutOfGas(OutOfGasError { spent: 2, op_gas: 1, limit: 2 })
        ))
    );
    assert_eq!(vm.pc, 2);
    assert_eq!(vm.stack.words(), &vec![6, 7]);

    let mut vm = vm_with(vec![1]);
    let mut gas = GasExec::from(GasLimit { per_yield: 4096, total: 100 });
    let r = run_sync_ops::<()>(&mut vm, &mut gas, &vec![Op::Alu(essential_state_asm::Alu::Add)], &vec![1], 10);
    assert!(matches!(r, PollStep::Fail(StateReadError::Op(0, OpError::Sync(OpSyncError::Constraint(_))))));
    assert!(vm.stack.words().is_empty());

    let mut vm = vm_with(vec![1, -1]);
    assert!(step_op_ctrl_flow(ControlFlowOp::Jump, &mut vm).is_err());
    assert_eq!(vm.stack.words(), &vec![1]);
}

#[test]
fn programs_run_stack_operations_and_repeat_loops() {
    let ops = vec![
        Op::Push(1),
        Op::Push(2),
        Op::Stack(essential_state_asm::Stack::Swap),
        Op::Stack(essential_state_asm::Stack::Dup),
        Op::ControlFlow(ControlFlowOp::Halt),
    ];
    let mut vm = Vm::new();
    let mut gas = GasExec::from(GasLimit { per_yield: 100, total: 100 });
    assert_eq!(run_sync_ops::<()>(&mut vm, &mut gas, &ops, &vec![1; 5], 100), PollStep::Done(5));
    assert_eq!(vm.stack.words(), &vec![2, 1, 1]);

    let ops = vec![
        Op::Push(0),
        Op::Push(3),
        Op::Push(0),
        Op::Stack(essential_state_asm::Stack::Repeat),
        Op::Push(1),
        Op::Alu(essential_state_asm::Alu::Add),
        Op::Stack(essential_state_asm::Stack::RepeatEnd),
        Op::ControlFlow(ControlFlowOp::Halt),
    ];
    let mut vm = Vm::new();
    let mut gas = GasExec::from(GasLimit { per_yield: 4096, total: 1000 });
    assert_eq!(run_sync_ops::<()>(&mut vm, &mut gas, &ops, &vec![1; 8], 100), PollStep::Done(14));
    assert_eq!(vm.stack.words(), &vec![3]);

    let mut vm = Vm::new();
    let mut gas = GasExec::from(GasLimit { per_yield: 4096, total: 1000 });
    let r = run_sync_ops::<()>(
        &mut vm,
        &mut gas,
        &vec![Op::Stack(essential_state_asm::Stack::RepeatEnd)],
        &vec![1],
        100,
    );
    assert!(matches!(r, PollStep::Fail(StateReadError::Op(0, OpError::Sync(OpSyncError::Constraint(_))))));
}

fn bytecode(ops: Vec<essential_state_asm::Op>) -> Vec<u8> {
    essential_state_asm::to_bytes(ops).collect()
}

#[test]
fn bytecode_runs_on_the_vm() {
    let code = bytecode(vec![
        AsmOp::Constraint(Constraint::Stack(AsmStack::Push(2))),
        AsmOp::Constraint(Constraint::Stack(AsmStack::Push(3))),
        AsmOp::Constraint(Constraint::Alu(Alu::Add)),
        AsmOp::Constraint(Constraint::TotalControlFlow(TotalControlFlow::Halt)),
    ]);
    let parsed = parse_program(&code).unwrap();
    assert_eq!(parsed.len(), 4);
    let ops = program_ops(&code).unwrap();
    assert_eq!(ops.len(), 4);
    let mut vm = Vm::new();
    let mut gas = GasExec::from(GasLimit { per_yield: 100, total: 100 });
    assert_eq!(run_sync_ops::<()>(&mut vm, &mut gas, &ops, &vec![1; 4], 100), PollStep::Done(4));
    assert_eq!(vm.stack.words(), &vec![5]);

    let code = bytecode(vec![
        AsmOp::Constraint(Constraint::Stack(AsmStack::Push(1))),
        AsmOp::KeyRange,
    ]);
    assert!(matches!(program_ops(&code), Err(ProgramError::Unsupported(1))));

    let mut code = bytecode(vec![AsmOp::Constraint(Constraint::Stack(AsmStack::Push(1)))]);
    code.pop();
    assert!(matches!(program_ops(&code), Err(ProgramError::Parse(0, _))));
    assert!(program_ops(&vec![]).unwrap().is_empty());
}

#[test]
fn queries_run_each_program_on_pre_then_post() {
    let mut runs: QueryRuns<u8> = QueryRuns::new(2);
    assert_eq!(runs.next(), NextRun::Pre(0));
    runs.finish_run(vec![1]);
    assert_eq!(runs.next(), NextRun::Post(0));
    runs.finish_run(vec![2, 3]);
    assert_eq!(runs.next(), NextRun::Pre(1));
    runs.finish_run(vec![]);
    assert_eq!(runs.next(), NextRun::Post(1));
    runs.finish_run(vec![4]);
    assert_eq!(runs.next(), NextRun::Finished);
    assert_eq!(runs.into_slots(), Slots { pre: vec![1], post: vec![2, 3, 4] });
    let none: QueryRuns<u8> = QueryRuns::new(0);
    assert_eq!(none.next(), NextRun::Finished);
}

#[test]
fn programs_use_temporary_memory() {
    let code = bytecode(vec![
        AsmOp::Constraint(Constraint::Stack(AsmStack::Push(1))),
        AsmOp::Constraint(Constraint::Temporary(essential_state_asm::Temporary::Alloc)),
        AsmOp::Constraint(Constraint::Stack(AsmStack::Push(42))),
        AsmOp::Constraint(Constraint::Temporary(essential_state_asm::Temporary::Store)),
        AsmOp::Constraint(Constraint::Stack(AsmStack::Push(0))),
        AsmOp::Constraint(Constraint::Temporary(essential_state_asm::Temporary::Load)),
    ]);
    let ops = program_ops(&code).unwrap();
    let mut vm = Vm::new();
    let mut gas = GasExec::from(GasLimit { per_yield: 100, total: 100 });
    assert_eq!(run_sync_ops::<()>(&mut vm, &mut gas, &ops, &vec![1; 6], 100), PollStep::Done(6));
    assert_eq!(vm.stack.words(), &vec![42]);
}
