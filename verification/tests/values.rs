use essential_server::json::{JsonNumber, JsonValue};
use essential_server::values::{
    get_contract, get_solution, list_blocks, list_contracts, list_failed_solutions,
    list_solutions, map_execute_to_values, map_query_to_query_values, map_solution_to_block,
    single_value, latest_block, BlockRows, Columns, QueryValues, Rows, StoredOutcome, ValuesError,
};
use essential_server::decode::{decode_contract, decode_predicate, decode_solution_sets};
use essential_types::contract::Contract;
use essential_types::predicate::{Node, Predicate};
use essential_types::solution::Solution;
use essential_types::{ContentAddress, PredicateAddress, Signature};

fn encode<T: serde::Serialize>(value: &T) -> String {
    hex::encode_upper(postcard::to_allocvec(value).unwrap())
}

fn decode<T: serde::de::DeserializeOwned>(bytes: &[u8]) -> T {
    postcard::from_bytes(bytes).unwrap()
}

fn text(s: &str) -> JsonValue {
    JsonValue::String(s.to_string())
}

fn blob<T: serde::Serialize>(value: &T) -> JsonValue {
    JsonValue::String(encode(value))
}

fn num(n: u64) -> JsonValue {
    JsonValue::Number(JsonNumber::PosInt(n))
}

fn float(f: f64) -> JsonValue {
    JsonValue::Number(JsonNumber::Float(f.to_bits()))
}

fn row(columns: Vec<JsonValue>) -> Columns {
    Columns { columns }
}

fn rows(rows: Vec<Columns>) -> Option<Rows> {
    Some(Rows { rows })
}

fn to_json(v: serde_json::Value) -> JsonValue {
    match v {
        serde_json::Value::Null => JsonValue::Null,
        serde_json::Value::Bool(b) => JsonValue::Bool(b),
        serde_json::Value::Number(n) => match (n.as_u64(), n.as_i64()) {
            (Some(u), _) => JsonValue::Number(JsonNumber::PosInt(u)),
            (None, Some(i)) => JsonValue::Number(JsonNumber::NegInt(i)),
            _ => JsonValue::Number(JsonNumber::Float(n.as_f64().unwrap().to_bits())),
        },
        serde_json::Value::String(s) => JsonValue::String(s),
        serde_json::Value::Array(a) => JsonValue::Array(a.into_iter().map(to_json).collect()),
        serde_json::Value::Object(o) => {
            JsonValue::Object(o.into_iter().map(|(k, v)| (k, to_json(v))).collect())
        }
    }
}

fn object(text: &str) -> Vec<(String, JsonValue)> {
    let v: serde_json::Value = serde_json::from_str(text).unwrap();
    match to_json(v) {
        JsonValue::Object(entries) => entries,
        _ => panic!("not an object"),
    }
}

fn empty_predicate() -> Predicate {
    Predicate::default()
}

fn predicate_with_salt(salt: u8) -> Predicate {
    Predicate {
        nodes: vec![Node {
            edge_start: u16::MAX,
            program_address: ContentAddress([salt; 32]),
        }],
        edges: vec![],
    }
}

fn signature() -> Signature {
    Signature([7; 64], 1)
}

fn empty_solution() -> Solution {
    Solution {
        predicate_to_solve: PredicateAddress {
            contract: ContentAddress([0; 32]),
            predicate: ContentAddress([0; 32]),
        },
        predicate_data: vec![],
        state_mutations: vec![],
    }
}

/// Serialises as the fail reason `ConstraintsFailed("test")`: variant index
/// zero, then the message.
fn reason() -> (u32, String) {
    (0, "test".to_string())
}

#[test]
fn test_predicate() {
    let bytes = postcard::to_allocvec(&empty_predicate()).unwrap();
    let data = essential_server::blob::encode_bytes(&bytes);
    let back = essential_server::blob::blob_bytes(&data).unwrap();
    let r: Predicate = decode(&back);
    assert_eq!(r, empty_predicate());
}

#[test]
fn test_contract() {
    let contract = Contract::without_salt(vec![empty_predicate()]);
    let bytes = postcard::to_allocvec(&contract).unwrap();
    let data = essential_server::blob::encode_bytes(&bytes);
    let back = essential_server::blob::blob_bytes(&data).unwrap();
    let r: Contract = decode(&back);
    assert_eq!(r, Contract::without_salt(vec![empty_predicate()]));
}

#[test]
fn test_single_value_with_one_row_one_column() {
    let queries = QueryValues {
        queries: vec![rows(vec![row(vec![JsonValue::Bool(true)])])],
    };
    assert_eq!(single_value(&queries), Some(&JsonValue::Bool(true)));
}

#[test]
fn test_single_value_with_multiple_rows() {
    let queries = QueryValues {
        queries: vec![rows(vec![
            row(vec![JsonValue::Bool(true)]),
            row(vec![JsonValue::Bool(true)]),
        ])],
    };
    assert_eq!(single_value(&queries), None);
}

#[test]
fn test_single_value_with_multiple_columns() {
    let queries = QueryValues {
        queries: vec![rows(vec![row(vec![JsonValue::Bool(true), JsonValue::Bool(true)])])],
    };
    assert_eq!(single_value(&queries), None);
}

#[test]
fn test_single_value_with_no_rows() {
    let queries = QueryValues { queries: vec![None] };
    assert_eq!(single_value(&queries), None);
}

#[test]
fn test_get_contract_test_empty_query() {
    let queries = QueryValues { queries: vec![None, None] };
    assert_eq!(get_contract(queries).unwrap(), None);
}

#[test]
fn test_get_contract_test_invalid_query() {
    let queries = QueryValues { queries: vec![None, None, None] };
    get_contract(queries).unwrap_err();
    let queries = QueryValues { queries: vec![None] };
    get_contract(queries).unwrap_err();
    let queries = QueryValues { queries: vec![] };
    get_contract(queries).unwrap_err();
}

#[test]
fn test_get_contract_test_signature_only() {
    let queries = QueryValues {
        queries: vec![rows(vec![row(vec![text("signature")])]), None],
    };
    get_contract(queries).unwrap_err();
}

#[test]
fn test_signature_single_predicate() {
    let contract = vec![empty_predicate()];
    let queries = QueryValues {
        queries: vec![
            rows(vec![row(vec![blob(&signature())])]),
            rows(vec![row(vec![blob(&contract[0])])]),
        ],
    };
    let r = get_contract(queries).unwrap().unwrap();
    let sig: Signature = decode(&r.signature);
    assert_eq!(sig, signature());
    let preds: Vec<Predicate> = r.predicates.iter().map(|p| decode(p)).collect();
    assert_eq!(preds, vec![empty_predicate()]);
}

#[test]
fn test_get_contract_test_invalid_data() {
    let invalid = "xxxxxxxxxxxxxxxxxxxxxxxxxxxxx";
    let contract = vec![empty_predicate()];
    let queries = QueryValues {
        queries: vec![
            rows(vec![row(vec![text(invalid)])]),
            rows(vec![row(vec![blob(&contract[0])])]),
        ],
    };
    get_contract(queries).unwrap_err();
    let queries = QueryValues {
        queries: vec![
            rows(vec![row(vec![blob(&signature())])]),
            rows(vec![row(vec![text(invalid)])]),
        ],
    };
    assert_eq!(get_contract(queries), Err(ValuesError::InvalidBlob));
}

#[test]
fn test_single_predicate_without_sig() {
    let contract = vec![empty_predicate()];
    let queries = QueryValues {
        queries: vec![None, rows(vec![row(vec![blob(&contract[0])])])],
    };
    get_contract(queries).unwrap_err();
}

#[test]
fn test_signature_multiple_predicate() {
    let contract = vec![predicate_with_salt(1), predicate_with_salt(2)];
    let queries = QueryValues {
        queries: vec![
            rows(vec![row(vec![blob(&signature())])]),
            rows(vec![row(vec![blob(&contract[0])]), row(vec![blob(&contract[1])])]),
        ],
    };
    let r = get_contract(queries).unwrap().unwrap();
    let sig: Signature = decode(&r.signature);
    assert_eq!(sig, signature());
    let preds: Vec<Predicate> = r.predicates.iter().map(|p| decode(p)).collect();
    assert_eq!(preds, vec![predicate_with_salt(1), predicate_with_salt(2)]);
}

#[test]
fn test_invalid_signature_multiple_predicate() {
    let contract = vec![predicate_with_salt(1), predicate_with_salt(2)];
    let queries = QueryValues {
        queries: vec![
            rows(vec![row(vec![JsonValue::Bool(true)])]),
            rows(vec![row(vec![blob(&contract[0]), blob(&contract[1])])]),
        ],
    };
    get_contract(queries).unwrap_err();
}

#[test]
fn test_signature_multiple_predicate_invalid() {
    let contract = vec![predicate_with_salt(1), predicate_with_salt(2)];
    let queries = QueryValues {
        queries: vec![
            rows(vec![row(vec![blob(&signature())])]),
            rows(vec![row(vec![blob(&contract[0]), JsonValue::Bool(true)])]),
        ],
    };
    get_contract(queries).unwrap_err();
}

#[test]
fn test_get_contract_test_multi_column_sig() {
    let contract = vec![predicate_with_salt(1), predicate_with_salt(2)];
    let queries = QueryValues {
        queries: vec![
            rows(vec![row(vec![blob(&signature()), blob(&signature())])]),
            rows(vec![row(vec![blob(&contract[0]), blob(&contract[1])])]),
        ],
    };
    get_contract(queries).unwrap_err();
}

#[test]
fn test_get_contract_test_multi_row_sig() {
    let contract = vec![predicate_with_salt(1), predicate_with_salt(2)];
    let queries = QueryValues {
        queries: vec![
            rows(vec![row(vec![blob(&signature())]), row(vec![blob(&signature())])]),
            rows(vec![row(vec![blob(&contract[0]), blob(&contract[1])])]),
        ],
    };
    get_contract(queries).unwrap_err();
}

#[test]
fn test_multi_row_predicate() {
    let contract = vec![predicate_with_salt(1), predicate_with_salt(2)];
    let queries = QueryValues {
        queries: vec![
            rows(vec![row(vec![blob(&signature())])]),
            rows(vec![
                row(vec![blob(&contract[0]), blob(&contract[1])]),
                row(vec![blob(&contract[0]), blob(&contract[1])]),
            ]),
        ],
    };
    get_contract(queries).unwrap_err();
}

#[test]
fn test_get_solution_test_empty_query() {
    let queries = QueryValues { queries: vec![None, None] };
    assert_eq!(get_solution(queries).unwrap(), None);
}

#[test]
fn test_get_solution_test_invalid_query() {
    let queries = QueryValues { queries: vec![] };
    get_solution(queries).unwrap_err();
    let queries = QueryValues { queries: vec![None, None, None] };
    get_solution(queries).unwrap_err();
}

#[test]
fn test_valid_solution() {
    let solution = empty_solution();
    let queries = QueryValues {
        queries: vec![
            rows(vec![row(vec![blob(&solution)])]),
            rows(vec![row(vec![num(1), JsonValue::Null])]),
        ],
    };
    let r = get_solution(queries).unwrap().unwrap();
    let s: Solution = decode(&r.solution);
    assert_eq!(s, solution);
    assert_eq!(r.outcome, vec![StoredOutcome::Success(1)]);

    let queries = QueryValues {
        queries: vec![
            rows(vec![row(vec![blob(&solution)])]),
            rows(vec![row(vec![JsonValue::Null, blob(&reason())])]),
        ],
    };
    let r = get_solution(queries).unwrap().unwrap();
    let s: Solution = decode(&r.solution);
    assert_eq!(s, solution);
    assert_eq!(
        r.outcome,
        vec![StoredOutcome::Fail(postcard::to_allocvec(&reason()).unwrap())]
    );
}

#[test]
fn test_invalid_solution() {
    let solution = empty_solution();
    let queries = QueryValues {
        queries: vec![
            rows(vec![row(vec![JsonValue::Bool(true)])]),
            rows(vec![row(vec![num(1), blob(&reason())])]),
        ],
    };
    get_solution(queries).unwrap_err();

    let queries = QueryValues {
        queries: vec![
            rows(vec![row(vec![blob(&solution), JsonValue::Bool(true)])]),
            rows(vec![row(vec![num(1), blob(&reason())])]),
        ],
    };
    get_solution(queries).unwrap_err();

    let queries = QueryValues {
        queries: vec![
            rows(vec![row(vec![blob(&solution)])]),
            rows(vec![row(vec![JsonValue::Bool(true), num(1), blob(&reason())])]),
        ],
    };
    get_solution(queries).unwrap_err();

    let queries = QueryValues {
        queries: vec![
            rows(vec![row(vec![blob(&solution)])]),
            rows(vec![row(vec![JsonValue::Bool(true), blob(&reason())])]),
        ],
    };
    get_solution(queries).unwrap_err();

    let queries = QueryValues {
        queries: vec![
            rows(vec![row(vec![blob(&solution)])]),
            rows(vec![row(vec![num(1), JsonValue::Bool(true)])]),
        ],
    };
    get_solution(queries).unwrap_err();

    let queries = QueryValues {
        queries: vec![
            rows(vec![row(vec![blob(&solution)])]),
            rows(vec![row(vec![num(1), blob(&reason())])]),
        ],
    };
    get_solution(queries).unwrap_err();
}

#[test]
fn test_get_solution_test_invalid_data() {
    let invalid = "xxxxxxxxxxxxxxxxxxxxxxxxxxxxx";
    let solution = empty_solution();

    let queries = QueryValues {
        queries: vec![
            rows(vec![row(vec![text(invalid)])]),
            rows(vec![row(vec![JsonValue::Null, blob(&reason())])]),
        ],
    };
    get_solution(queries).unwrap_err();

    let queries = QueryValues {
        queries: vec![
            rows(vec![row(vec![blob(&solution), text(invalid)])]),
            rows(vec![row(vec![JsonValue::Null, blob(&reason())])]),
        ],
    };
    get_solution(queries).unwrap_err();

    let queries = QueryValues {
        queries: vec![
            rows(vec![row(vec![blob(&solution)])]),
            rows(vec![row(vec![float(1.0), JsonValue::Null])]),
        ],
    };
    assert_eq!(get_solution(queries), Err(ValuesError::InvalidNumber));

    let queries = QueryValues {
        queries: vec![
            rows(vec![row(vec![blob(&solution)])]),
            rows(vec![row(vec![JsonValue::Null, text(invalid)])]),
        ],
    };
    assert_eq!(get_solution(queries), Err(ValuesError::InvalidBlob));
}

#[test]
fn test_get_solution_test_wrong_num_columns() {
    let solution = empty_solution();
    let queries = QueryValues {
        queries: vec![rows(vec![row(vec![blob(&solution), blob(&solution)])])],
    };
    get_solution(queries).unwrap_err();
}

#[test]
fn test_get_solution_test_wrong_num_rows() {
    let solution = empty_solution();
    let queries = QueryValues {
        queries: vec![rows(vec![row(vec![blob(&solution)]), row(vec![blob(&solution)])])],
    };
    get_solution(queries).unwrap_err();
}

#[test]
fn test_list_contracts_test_empty_query() {
    let queries = QueryValues { queries: vec![None, None] };
    assert!(list_contracts(queries).unwrap().is_empty());
}

#[test]
fn test_list_contracts_test_invalid_query() {
    let queries = QueryValues { queries: vec![] };
    list_contracts(queries).unwrap_err();
    let queries = QueryValues { queries: vec![None, None, None] };
    list_contracts(queries).unwrap_err();
}

#[test]
fn test_list_contracts_test_valid_queries() {
    let queries = QueryValues {
        queries: vec![
            rows(vec![row(vec![num(1), blob(&[0u8; 32])])]),
            rows(vec![row(vec![num(1), blob(&predicate_with_salt(1))])]),
        ],
    };
    let r = list_contracts(queries).unwrap();
    assert_eq!(r.len(), 1);
    assert_eq!(r[0].contract_id, 1);
    assert_eq!(r[0].salt, [0u8; 32]);
    let preds: Vec<Predicate> = r[0].predicates.iter().map(|p| decode(p)).collect();
    assert_eq!(preds, vec![predicate_with_salt(1)]);

    let queries = QueryValues {
        queries: vec![
            rows(vec![
                row(vec![num(0), blob(&[0u8; 32])]),
                row(vec![num(1), blob(&[0u8; 32])]),
            ]),
            rows(vec![
                row(vec![num(0), blob(&predicate_with_salt(1))]),
                row(vec![num(1), blob(&predicate_with_salt(1))]),
                row(vec![num(1), blob(&predicate_with_salt(2))]),
            ]),
        ],
    };
    let r = list_contracts(queries).unwrap();
    let contracts: Vec<Contract> = r
        .iter()
        .map(|c| Contract {
            predicates: c.predicates.iter().map(|p| decode(p)).collect(),
            salt: c.salt,
        })
        .collect();
    let expected: Vec<Contract> = vec![
        vec![predicate_with_salt(1)].into(),
        vec![predicate_with_salt(1), predicate_with_salt(2)].into(),
    ];
    assert_eq!(contracts, expected);
    assert_eq!(r[0].contract_id, 0);
    assert_eq!(r[1].contract_id, 1);
}

#[test]
fn test_list_contracts_test_invalid_data() {
    let queries = QueryValues {
        queries: vec![rows(vec![row(vec![num(1), JsonValue::Bool(true)])])],
    };
    list_contracts(queries).unwrap_err();

    let queries = QueryValues {
        queries: vec![rows(vec![row(vec![JsonValue::Bool(true), blob(&predicate_with_salt(1))])])],
    };
    list_contracts(queries).unwrap_err();

    let queries = QueryValues {
        queries: vec![rows(vec![row(vec![num(1), text("xxxxxxxxxxxxxxxxxxxxxxxxxxxx")])])],
    };
    list_contracts(queries).unwrap_err();

    let queries = QueryValues {
        queries: vec![rows(vec![row(vec![float(1.0), blob(&predicate_with_salt(1))])])],
    };
    list_contracts(queries).unwrap_err();
}

#[test]
fn test_list_contracts_test_wrong_num_columns() {
    let queries = QueryValues {
        queries: vec![rows(vec![row(vec![num(1), blob(&predicate_with_salt(1)), num(1)])])],
    };
    list_contracts(queries).unwrap_err();

    let queries = QueryValues {
        queries: vec![rows(vec![row(vec![num(1)])])],
    };
    list_contracts(queries).unwrap_err();
}

#[test]
fn test_list_contracts_test_wrong_num_rows() {
    let queries = QueryValues {
        queries: vec![rows(vec![])],
    };
    list_contracts(queries).unwrap_err();
}

#[test]
fn test_list_failed_solutions_test_empty_query() {
    let queries = QueryValues { queries: vec![None] };
    assert!(list_failed_solutions(queries).unwrap().is_empty());
}

#[test]
fn test_list_failed_solutions_test_invalid_query() {
    let queries = QueryValues { queries: vec![] };
    list_failed_solutions(queries).unwrap_err();
    let queries = QueryValues { queries: vec![None, None] };
    list_failed_solutions(queries).unwrap_err();
}

#[test]
fn test_list_failed_solutions_test_valid_query() {
    let solution = empty_solution();
    let queries = QueryValues {
        queries: vec![rows(vec![row(vec![blob(&solution), blob(&reason())])])],
    };
    let r = list_failed_solutions(queries).unwrap();
    assert_eq!(r.len(), 1);
    let s: Solution = decode(&r[0].solution);
    let why: (u32, String) = decode(&r[0].reason);
    assert_eq!(s, solution);
    assert_eq!(why, reason());

    let queries = QueryValues {
        queries: vec![rows(vec![
            row(vec![blob(&solution), blob(&reason())]),
            row(vec![blob(&solution), blob(&reason())]),
        ])],
    };
    let r = list_failed_solutions(queries).unwrap();
    assert_eq!(r.len(), 2);
    for f in &r {
        let s: Solution = decode(&f.solution);
        let why: (u32, String) = decode(&f.reason);
        assert_eq!(s, solution);
        assert_eq!(why, reason());
    }
}

#[test]
fn test_list_failed_solutions_test_invalid_data() {
    let invalid = "xxxxxxx";
    let solution = empty_solution();
    let cases = vec![
        vec![text(invalid), blob(&solution), blob(&reason())],
        vec![text(invalid), blob(&reason())],
        vec![blob(&solution), text(invalid)],
        vec![JsonValue::Bool(true), blob(&solution), blob(&reason())],
        vec![JsonValue::Bool(true), blob(&reason())],
        vec![blob(&solution), JsonValue::Bool(true)],
    ];
    for columns in cases {
        let queries = QueryValues {
            queries: vec![rows(vec![row(columns)])],
        };
        list_failed_solutions(queries).unwrap_err();
    }
}

#[test]
fn test_list_failed_solutions_test_wrong_num_columns() {
    let solution = empty_solution();
    let queries = QueryValues {
        queries: vec![rows(vec![row(vec![blob(&solution)])])],
    };
    list_failed_solutions(queries).unwrap_err();
    let queries = QueryValues {
        queries: vec![rows(vec![row(vec![blob(&solution)])])],
    };
    list_failed_solutions(queries).unwrap_err();
}

#[test]
fn test_list_failed_solutions_test_wrong_num_rows() {
    let queries = QueryValues {
        queries: vec![rows(vec![])],
    };
    list_failed_solutions(queries).unwrap_err();
}

#[test]
fn test_list_solutions_test_empty_query() {
    let queries = QueryValues { queries: vec![None] };
    assert!(list_solutions(queries).unwrap().is_empty());
}

#[test]
fn test_list_solutions_test_invalid_query() {
    let queries = QueryValues { queries: vec![] };
    list_solutions(queries).unwrap_err();
    let queries = QueryValues { queries: vec![None, None] };
    list_solutions(queries).unwrap_err();
}

#[test]
fn test_list_solutions_test_valid_query() {
    let solution = empty_solution();
    let queries = QueryValues {
        queries: vec![rows(vec![row(vec![blob(&solution)])])],
    };
    let r = list_solutions(queries).unwrap();
    let r: Vec<Solution> = r.iter().map(|b| decode(b)).collect();
    assert_eq!(r, vec![solution.clone()]);

    let queries = QueryValues {
        queries: vec![rows(vec![row(vec![blob(&solution)]), row(vec![blob(&solution)])])],
    };
    let r = list_solutions(queries).unwrap();
    let r: Vec<Solution> = r.iter().map(|b| decode(b)).collect();
    assert_eq!(r, vec![solution.clone(), solution]);
}

#[test]
fn test_list_solutions_test_invalid_data() {
    let invalid = "xxxxxxx";
    let solution = empty_solution();
    let cases = vec![
        vec![text(invalid), blob(&solution)],
        vec![text(invalid)],
        vec![JsonValue::Bool(true), blob(&solution)],
        vec![blob(&solution), JsonValue::Bool(true)],
    ];
    for columns in cases {
        let queries = QueryValues {
            queries: vec![rows(vec![row(columns)])],
        };
        list_solutions(queries).unwrap_err();
    }
}

#[test]
fn test_list_solutions_test_wrong_num_columns() {
    let solution = empty_solution();
    let queries = QueryValues {
        queries: vec![rows(vec![row(vec![blob(&solution), blob(&solution)])])],
    };
    list_solutions(queries).unwrap_err();
    let queries = QueryValues {
        queries: vec![rows(vec![row(vec![])])],
    };
    list_solutions(queries).unwrap_err();
}

#[test]
fn test_list_solutions_test_wrong_num_rows() {
    let queries = QueryValues {
        queries: vec![rows(vec![])],
    };
    list_solutions(queries).unwrap_err();
}

#[test]
fn test_list_winning_blocks_test_empty_query() {
    let queries = QueryValues { queries: vec![None] };
    assert!(list_blocks(queries).unwrap().is_empty());
}

#[test]
fn test_list_winning_blocks_test_invalid_query() {
    let queries = QueryValues { queries: vec![] };
    list_blocks(queries).unwrap_err();
    let queries = QueryValues { queries: vec![None, None] };
    list_blocks(queries).unwrap_err();
}

#[test]
fn test_list_winning_blocks_test_wrong_num_rows() {
    let queries = QueryValues {
        queries: vec![rows(vec![])],
    };
    list_blocks(queries).unwrap_err();
}

#[test]
fn test_map_execute_to_values_test_valid_result() {
    let json = object(&format!(
        r#"{{"results": [
            {{"columns": ["foo"], "types": ["blob"], "values": [["{}"]]}},
            {{"last_insert_id": 3, "rows_affected": 1}}
        ]}}"#,
        encode(&vec![1i64, 2])
    ));
    let r = map_execute_to_values(json).unwrap();
    assert_eq!(r, vec![1, 2]);
}

#[test]
fn test_map_execute_to_values_test_empty_result() {
    let json = object(
        r#"{"results": [
            {"columns": ["foo"], "types": ["integer"]},
            {"last_insert_id": 3, "rows_affected": 1}
        ]}"#,
    );
    let r = map_execute_to_values(json).unwrap();
    assert!(r.is_empty());
}

#[test]
fn test_map_execute_to_values_test_missing_results() {
    let json = object(
        r#"{"foo": [
            {"columns": ["foo"], "types": ["integer"]},
            {"last_insert_id": 3, "rows_affected": 1}
        ]}"#,
    );
    map_execute_to_values(json).unwrap_err();
}

#[test]
fn test_map_execute_to_values_test_missing_execute() {
    let json = object(
        r#"{"results": [
            {"columns": ["foo"], "types": ["integer"]}
        ]}"#,
    );
    map_execute_to_values(json).unwrap_err();
}

#[test]
fn test_map_execute_to_values_test_invalid_result() {
    let bodies = [
        r#"[[1.0]]"#,
        r#"[["foo"]]"#,
        r#"[[1, 1]]"#,
        r#"[[]]"#,
    ];
    for values in bodies {
        let json = object(&format!(
            r#"{{"results": [
                {{"columns": ["foo"], "types": ["integer"], "values": {}}},
                {{"last_insert_id": 3, "rows_affected": 1}}
            ]}}"#,
            values
        ));
        map_execute_to_values(json).unwrap_err();
    }
}

#[test]
fn test_map_query_to_query_values_test_empty_result() {
    let json = object(r#"{"results": [{"columns": ["bar", "foo"], "types": ["", "blob"]}]}"#);
    let r = map_query_to_query_values(json).unwrap();
    assert_eq!(r, QueryValues { queries: vec![None] });
}

#[test]
fn test_invalid() {
    let json = object(r#"{"foo": []}"#);
    map_query_to_query_values(json).expect_err("Invalid format should result in error");
}

#[test]
fn test_no_query() {
    let json = object(r#"{"results": []}"#);
    let r = map_query_to_query_values(json).unwrap();
    assert_eq!(r, QueryValues { queries: vec![] });
}

fn text_rows() -> Option<Rows> {
    rows(vec![row(vec![text("2"), text("1")]), row(vec![text("3"), text("2")])])
}

fn id_rows(n: usize) -> Option<Rows> {
    let all = vec![
        row(vec![num(1), text("1"), text("2")]),
        row(vec![num(2), text("2"), text("3")]),
        row(vec![num(3), text("5"), text("6")]),
    ];
    rows(all.into_iter().take(n).collect())
}

#[test]
fn test_single_query() {
    let json = object(
        r#"{"results": [{"columns": ["bar", "foo"], "types": ["text", "blob"],
            "values": [["2", "1"], ["3", "2"]]}]}"#,
    );
    let r = map_query_to_query_values(json).unwrap();
    assert_eq!(r, QueryValues { queries: vec![text_rows()] });
}

#[test]
fn test_multiple_queries() {
    let json = object(
        r#"{"results": [
            {"columns": ["bar", "foo"], "types": ["text", "blob"],
             "values": [["2", "1"], ["3", "2"]]},
            {"columns": ["id", "foo", "bar"], "types": ["integer", "blob", "text"],
             "values": [[1, "1", "2"], [2, "2", "3"]]}
        ]}"#,
    );
    let r = map_query_to_query_values(json).unwrap();
    assert_eq!(r, QueryValues { queries: vec![text_rows(), id_rows(2)] });
}

#[test]
fn test_query_execute_query() {
    let json = object(
        r#"{"results": [
            {"columns": ["id", "foo", "bar"], "types": ["integer", "blob", "text"],
             "values": [[1, "1", "2"], [2, "2", "3"]]},
            {"last_insert_id": 3, "rows_affected": 1},
            {"columns": ["id", "foo", "bar"], "types": ["integer", "blob", "text"],
             "values": [[1, "1", "2"], [2, "2", "3"], [3, "5", "6"]]}
        ]}"#,
    );
    let r = map_query_to_query_values(json).unwrap();
    assert_eq!(r, QueryValues { queries: vec![id_rows(2), None, id_rows(3)] });
}

#[test]
fn test_map_solution_to_block_test_valid_query() {
    let data = empty_solution();
    let sig = signature();
    let r = map_solution_to_block(
        Vec::new(),
        &vec![num(1), blob(&data), blob(&sig), num(2), num(3)],
    )
    .unwrap();
    assert_eq!(r.len(), 1);
    assert_eq!(r[0].batch_id, 1);
    assert_eq!(r[0].solutions.len(), 1);
    let s: Solution = decode(&r[0].solutions[0].0);
    assert_eq!(s, data);
    let g: Signature = decode(&r[0].solutions[0].1);
    assert_eq!(g, sig);
    assert_eq!(r[0].number, 0);
    assert_eq!((r[0].timestamp_secs, r[0].timestamp_nanos), (2, 3));

    let data2 = empty_solution();
    let sig2 = Signature([8; 64], 0);
    let r = map_solution_to_block(r, &vec![num(1), blob(&data2), blob(&sig2), num(9), num(10)])
        .unwrap();
    assert_eq!(r.len(), 1);
    assert_eq!(r[0].solutions.len(), 2);
    let s: Solution = decode(&r[0].solutions[0].0);
    assert_eq!(s, data);
    let s: Solution = decode(&r[0].solutions[1].0);
    assert_eq!(s, data2);
    let g: Signature = decode(&r[0].solutions[1].1);
    assert_eq!(g, sig2);
    assert_eq!(r[0].number, 0);
    assert_eq!((r[0].timestamp_secs, r[0].timestamp_nanos), (2, 3));

    let data3 = empty_solution();
    let sig3 = Signature([9; 64], 1);
    let r = map_solution_to_block(r, &vec![num(2), blob(&data3), blob(&sig3), num(11), num(12)])
        .unwrap();
    assert_eq!(r.len(), 2);
    assert_eq!(r[0].solutions.len(), 2);
    assert_eq!(r[1].batch_id, 2);
    let s: Solution = decode(&r[1].solutions[0].0);
    assert_eq!(s, data3);
    assert_eq!(r[0].number, 0);
    assert_eq!((r[0].timestamp_secs, r[0].timestamp_nanos), (2, 3));
    assert_eq!(r[1].number, 1);
    assert_eq!((r[1].timestamp_secs, r[1].timestamp_nanos), (11, 12));
}

#[test]
fn test_block_id_zero() {
    let data = empty_solution();
    let r = map_solution_to_block(
        Vec::new(),
        &vec![num(0), blob(&data), blob(&signature()), num(1), num(1)],
    );
    assert_eq!(r, Err(ValuesError::ZeroBatchId));
}

#[test]
fn test_map_solution_to_block_test_invalid_data() {
    let invalid = "xxxxxxxxxx";
    let data = empty_solution();
    let sig = signature();
    let cases = vec![
        vec![JsonValue::Bool(true), blob(&data), blob(&sig), num(2), num(3)],
        vec![num(1), JsonValue::Bool(true), blob(&sig), num(2), num(3)],
        vec![num(1), blob(&data), JsonValue::Bool(true), num(2), num(3)],
        vec![num(1), blob(&data), blob(&sig), JsonValue::Bool(true), num(3)],
        vec![num(1), blob(&data), blob(&sig), num(2), JsonValue::Bool(true)],
        vec![num(1), text(invalid), blob(&sig), num(2), num(3)],
        vec![num(1), blob(&data), text(invalid), num(2), num(3)],
        vec![float(1.0), blob(&data), blob(&sig), num(2), num(3)],
        vec![num(1), blob(&data), blob(&sig), float(1.0), num(3)],
        vec![num(1), blob(&data), blob(&sig), num(2), float(1.0)],
    ];
    for columns in cases {
        map_solution_to_block(Vec::new(), &columns).unwrap_err();
    }
}

#[test]
fn test_map_solution_to_block_test_wrong_num_columns() {
    let data = empty_solution();
    let sig = signature();
    map_solution_to_block(Vec::new(), &vec![num(1), blob(&data), blob(&sig), num(2)])
        .unwrap_err();
    map_solution_to_block(
        Vec::new(),
        &vec![num(1), blob(&data), blob(&sig), num(2), num(3), num(3)],
    )
    .unwrap_err();
}

#[test]
fn blocks_come_in_batch_order() {
    let data = empty_solution();
    let queries = QueryValues {
        queries: vec![rows(vec![
            row(vec![num(3), blob(&data), blob(&signature()), num(30), num(0)]),
            row(vec![num(1), blob(&data), blob(&signature()), num(10), num(0)]),
            row(vec![num(2), blob(&data), blob(&signature()), num(20), num(0)]),
            row(vec![num(1), blob(&data), blob(&signature()), num(11), num(0)]),
        ])],
    };
    let r = list_blocks(queries).unwrap();
    let ids: Vec<(u64, u64, u64, usize)> = r
        .iter()
        .map(|b: &BlockRows| (b.batch_id, b.number, b.timestamp_secs, b.solutions.len()))
        .collect();
    assert_eq!(ids, vec![(1, 0, 10, 2), (2, 1, 20, 1), (3, 2, 30, 1)]);
}

#[test]
fn contracts_come_in_id_order_with_their_own_predicates() {
    let queries = QueryValues {
        queries: vec![
            rows(vec![
                row(vec![num(5), blob(&[5u8; 32])]),
                row(vec![num(2), blob(&[2u8; 32])]),
            ]),
            rows(vec![
                row(vec![num(5), blob(&predicate_with_salt(50))]),
                row(vec![num(2), blob(&predicate_with_salt(20))]),
                row(vec![num(5), blob(&predicate_with_salt(51))]),
            ]),
        ],
    };
    let r = list_contracts(queries).unwrap();
    assert_eq!(r.len(), 2);
    assert_eq!((r[0].contract_id, r[0].salt), (2, [2u8; 32]));
    assert_eq!((r[1].contract_id, r[1].salt), (5, [5u8; 32]));
    let p0: Vec<Predicate> = r[0].predicates.iter().map(|p| decode(p)).collect();
    let p1: Vec<Predicate> = r[1].predicates.iter().map(|p| decode(p)).collect();
    assert_eq!(p0, vec![predicate_with_salt(20)]);
    assert_eq!(p1, vec![predicate_with_salt(50), predicate_with_salt(51)]);
}

#[test]
fn contracts_errors() {
    let dup = QueryValues {
        queries: vec![
            rows(vec![row(vec![num(1), blob(&[0u8; 32])]), row(vec![num(1), blob(&[1u8; 32])])]),
            rows(vec![row(vec![num(1), blob(&predicate_with_salt(1))])]),
        ],
    };
    assert_eq!(list_contracts(dup), Err(ValuesError::DuplicateContractId));
    let missing = QueryValues {
        queries: vec![
            rows(vec![row(vec![num(1), blob(&[0u8; 32])])]),
            rows(vec![row(vec![num(2), blob(&predicate_with_salt(1))])]),
        ],
    };
    assert_eq!(list_contracts(missing), Err(ValuesError::MissingSalt));
    let no_rows = QueryValues {
        queries: vec![rows(vec![]), rows(vec![row(vec![num(2), blob(&predicate_with_salt(1))])])],
    };
    assert_eq!(list_contracts(no_rows), Err(ValuesError::NoRows));
}

#[test]
fn stored_values_decode_into_protocol_types() {
    let contract = vec![predicate_with_salt(1), predicate_with_salt(2)];
    let queries = QueryValues {
        queries: vec![
            rows(vec![row(vec![blob(&signature())])]),
            rows(vec![row(vec![blob(&contract[0])]), row(vec![blob(&contract[1])])]),
        ],
    };
    let blobs = get_contract(queries).unwrap().unwrap();
    let (sig, preds) = decode_contract(&blobs).unwrap();
    assert_eq!(sig, signature());
    assert_eq!(preds, contract);

    let mut bad = blobs;
    bad.predicates.push(vec![0xff, 0xff, 0xff]);
    assert_eq!(decode_contract(&bad).map(|_| ()), Err(ValuesError::InvalidBlob));
    assert_eq!(decode_predicate(&vec![]).map(|_| ()), Err(ValuesError::InvalidBlob));

    let sets = vec![postcard::to_allocvec(&essential_types::SolutionSet { solutions: vec![empty_solution()] }).unwrap()];
    let decoded = decode_solution_sets(&sets).unwrap();
    assert_eq!(decoded[0].solutions, vec![empty_solution()]);
}

#[test]
fn latest_block_is_read_from_its_rows() {
    let data = empty_solution();
    let queries = QueryValues {
        queries: vec![rows(vec![
            row(vec![num(7), blob(&data), blob(&signature()), num(70), num(1)]),
            row(vec![num(7), blob(&data), blob(&signature()), num(70), num(1)]),
        ])],
    };
    let b = latest_block(queries).unwrap().unwrap();
    assert_eq!((b.batch_id, b.number, b.timestamp_secs, b.timestamp_nanos), (7, 6, 70, 1));
    assert_eq!(b.solutions.len(), 2);
    assert_eq!(latest_block(QueryValues { queries: vec![None] }), Ok(None));
    assert_eq!(
        essential_server::sql::get_latest_block().sql.path(),
        "query/get_latest_block.sql"
    );
}

#[test]
fn rows_keep_the_number_and_time_of_blocks_already_read() {
    let data = empty_solution();
    let sig = signature();
    let earlier = BlockRows {
        batch_id: 4,
        number: 17,
        timestamp_secs: 5,
        timestamp_nanos: 6,
        solutions: vec![],
    };
    let r = map_solution_to_block(vec![earlier], &vec![num(4), blob(&data), blob(&sig), num(9), num(9)])
        .unwrap();
    assert_eq!(r.len(), 1);
    assert_eq!((r[0].batch_id, r[0].number, r[0].timestamp_secs, r[0].timestamp_nanos), (4, 17, 5, 6));
    assert_eq!(r[0].solutions.len(), 1);
}
