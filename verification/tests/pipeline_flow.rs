use calltrace::abi::ParamType;
use calltrace::addresses;
use calltrace::book::AddressBook;
use calltrace::numeric::word_from_u128;
use calltrace::pipeline::{decode_and_classify, TradeError};
use calltrace::registry::{FunctionRegistry, FunctionSignature, Param};
use calltrace::report::describe;
use calltrace::decoder::DecodeError;
use sha3::Digest;

fn selector(canonical: &str) -> Vec<u8> {
    sha3::Keccak256::digest(canonical.as_bytes())[0..4].to_vec()
}

fn swap_registry() -> FunctionRegistry {
    FunctionRegistry::load(vec![FunctionSignature {
        name: "ethToTokenSwapInput".to_string(),
        inputs: vec![
            Param { name: "min_tokens".to_string(), kind: ParamType::Uint(256) },
            Param { name: "deadline".to_string(), kind: ParamType::Uint(256) },
        ],
    }])
}

#[test]
fn pipeline_reports_a_swap() {
    let reg = swap_registry();
    let book = AddressBook::new(addresses::eth::tokens()).unwrap();
    let mut data = selector("ethToTokenSwapInput(uint256,uint256)");
    data.extend(word_from_u128(1000));
    data.extend(word_from_u128(99999));
    let value = word_from_u128(500_000_000_000_000_000);
    let results = decode_and_classify(&data, &value, &reg, &book, "eth");
    assert_eq!(results.len(), 1);
    let line = describe(&results[0]);
    assert_eq!(
        line,
        "Bought 500000000000000000 WEI worth of tokens, with a minimum of 1000 tokens"
    );
}

#[test]
fn pipeline_reports_a_decode_failure() {
    let reg = swap_registry();
    let book = AddressBook::new(addresses::eth::tokens()).unwrap();
    let data = vec![0x01u8, 0x02];
    let results = decode_and_classify(&data, &word_from_u128(0), &reg, &book, "eth");
    assert_eq!(results.len(), 1);
    match &results[0] {
        Err(TradeError::Decode(DecodeError::Truncated)) => {}
        _ => panic!("expected the truncation error"),
    }
    assert_eq!(describe(&results[0]), "Error: call data is truncated");
}

#[test]
fn selector_collision_takes_registration_order() {
    // Two identical canonical signatures under different parameter names
    // share a selector; the first registered one wins.
    let reg = FunctionRegistry::load(vec![
        FunctionSignature {
            name: "ethToTokenSwapInput".to_string(),
            inputs: vec![
                Param { name: "a".to_string(), kind: ParamType::Uint(256) },
                Param { name: "b".to_string(), kind: ParamType::Uint(256) },
            ],
        },
        FunctionSignature {
            name: "ethToTokenSwapInput".to_string(),
            inputs: vec![
                Param { name: "min_tokens".to_string(), kind: ParamType::Uint(256) },
                Param { name: "deadline".to_string(), kind: ParamType::Uint(256) },
            ],
        },
    ]);
    let sel = selector("ethToTokenSwapInput(uint256,uint256)");
    assert_eq!(reg.resolve_index(&sel), Some(0));
}
