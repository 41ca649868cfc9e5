use calltrace::abi::{DecodedValue, ParamType};
use calltrace::abi_exec::{decode_args, kind_name};
use calltrace::decoder::{decode, DecodeError, MAX_CALL_DEPTH};
use calltrace::numeric::word_from_u128;
use calltrace::registry::{FunctionRegistry, FunctionSignature, Param};
use sha3::Digest;

fn selector(canonical: &str) -> Vec<u8> {
    sha3::Keccak256::digest(canonical.as_bytes())[0..4].to_vec()
}

fn sig(name: &str, params: Vec<(&str, ParamType)>) -> FunctionSignature {
    FunctionSignature {
        name: name.to_string(),
        inputs: params
            .into_iter()
            .map(|(n, k)| Param { name: n.to_string(), kind: k })
            .collect(),
    }
}

fn pad32(mut b: Vec<u8>) -> Vec<u8> {
    while b.len() % 32 != 0 {
        b.push(0);
    }
    b
}

fn word(n: u128) -> Vec<u8> {
    word_from_u128(n)
}

/// One dynamic bytes argument laid out as a head offset plus tail.
fn bytes_arg_block(payload: &[u8]) -> Vec<u8> {
    let mut out = word(32);
    out.extend(word(payload.len() as u128));
    out.extend(pad32(payload.to_vec()));
    out
}

fn swap_registry() -> FunctionRegistry {
    FunctionRegistry::load(vec![
        sig(
            "ethToTokenSwapInput",
            vec![("min_tokens", ParamType::Uint(256)), ("deadline", ParamType::Uint(256))],
        ),
        sig("execute", vec![("data", ParamType::Array(Box::new(ParamType::Bytes)))]),
        sig("wrap", vec![("inner", ParamType::Bytes)]),
    ])
}

#[test]
fn selector_of_known_signature() {
    let reg = FunctionRegistry::load(vec![sig(
        "transfer",
        vec![("to", ParamType::Address), ("amount", ParamType::Uint(256))],
    )]);
    // The well-known selector of transfer(address,uint256).
    assert_eq!(reg.resolve_index(&vec![0xa9, 0x05, 0x9c, 0xbb]), Some(0));
    assert_eq!(reg.resolve_index(&vec![0xa9, 0x05, 0x9c, 0xbc]), None);
}

#[test]
fn short_data_is_truncated() {
    let reg = swap_registry();
    for data in [vec![], vec![0x12], vec![0x12, 0x34, 0x56]] {
        match decode(&data, &reg) {
            Err(DecodeError::Truncated) => {}
            other => panic!("expected Truncated, got {:?}", kind_of(&other)),
        }
    }
}

#[test]
fn unknown_selector_is_reported() {
    let reg = swap_registry();
    let data = vec![0xde, 0xad, 0xbe, 0xef];
    match decode(&data, &reg) {
        Err(DecodeError::UnknownSelector(sel)) => assert_eq!(sel, vec![0xde, 0xad, 0xbe, 0xef]),
        other => panic!("expected UnknownSelector, got {:?}", kind_of(&other)),
    }
}

#[test]
fn malformed_body_is_reported() {
    let reg = swap_registry();
    // Selector resolves, but only one of the two argument words follows.
    let mut data = selector("ethToTokenSwapInput(uint256,uint256)");
    data.extend(word(1000));
    data.truncate(4 + 31);
    match decode(&data, &reg) {
        Err(DecodeError::Malformed { depth, selector }) => {
            assert_eq!(depth, 0);
            assert_eq!(selector, data[0..4].to_vec());
        }
        other => panic!("expected Malformed, got {:?}", kind_of(&other)),
    }
}

#[test]
fn simple_call_decodes() {
    let reg = swap_registry();
    let mut data = selector("ethToTokenSwapInput(uint256,uint256)");
    data.extend(word(1000));
    data.extend(word(9999));
    let calls = decode(&data, &reg).unwrap();
    assert_eq!(calls.len(), 1);
    assert_eq!(calls[0].name, "ethToTokenSwapInput");
    assert_eq!(calls[0].depth, 0);
    assert_eq!(calls[0].fields.len(), 2);
    assert_eq!(calls[0].fields[0].0, "min_tokens");
    match &calls[0].fields[0].1 {
        DecodedValue::Uint(w) => assert_eq!(*w, word(1000)),
        _ => panic!("min_tokens should be an unsigned integer"),
    }
}

#[test]
fn multicall_decodes_in_preorder() {
    let reg = swap_registry();
    let mut b1 = selector("ethToTokenSwapInput(uint256,uint256)");
    b1.extend(word(5));
    b1.extend(word(111));
    let mut b2 = selector("ethToTokenSwapInput(uint256,uint256)");
    b2.extend(word(7));
    b2.extend(word(222));

    // execute(bytes[]): head offset, then count, element offsets, tails.
    let t1 = {
        let mut t = word(b1.len() as u128);
        t.extend(pad32(b1.clone()));
        t
    };
    let t2 = {
        let mut t = word(b2.len() as u128);
        t.extend(pad32(b2.clone()));
        t
    };
    let mut data = selector("execute(bytes[])");
    data.extend(word(32));
    data.extend(word(2));
    data.extend(word(64));
    data.extend(word(64 + t1.len() as u128));
    data.extend(t1);
    data.extend(t2);

    let calls = decode(&data, &reg).unwrap();
    assert_eq!(calls.len(), 3);
    assert_eq!(calls[0].name, "execute");
    assert_eq!(calls[0].depth, 0);
    assert_eq!(calls[1].name, "ethToTokenSwapInput");
    assert_eq!(calls[1].depth, 1);
    match &calls[1].fields[0].1 {
        DecodedValue::Uint(w) => assert_eq!(*w, word(5)),
        _ => panic!("wrong field type"),
    }
    assert_eq!(calls[2].name, "ethToTokenSwapInput");
    assert_eq!(calls[2].depth, 1);
    match &calls[2].fields[0].1 {
        DecodedValue::Uint(w) => assert_eq!(*w, word(7)),
        _ => panic!("wrong field type"),
    }
}

/// A chain of `n` wrap(bytes) calls, innermost holding an empty payload.
fn wrap_chain(n: usize) -> Vec<u8> {
    let sel = selector("wrap(bytes)");
    let mut data: Vec<u8> = sel.clone();
    data.extend(bytes_arg_block(&[]));
    for _ in 1..n {
        let mut outer = sel.clone();
        outer.extend(bytes_arg_block(&data));
        data = outer;
    }
    data
}

#[test]
fn nesting_at_the_limit_decodes() {
    let reg = swap_registry();
    let calls = decode(&wrap_chain(MAX_CALL_DEPTH), &reg).unwrap();
    assert_eq!(calls.len(), MAX_CALL_DEPTH);
    assert_eq!(calls[MAX_CALL_DEPTH - 1].depth, MAX_CALL_DEPTH - 1);
}

#[test]
fn nesting_past_the_limit_is_too_deep() {
    let reg = swap_registry();
    match decode(&wrap_chain(MAX_CALL_DEPTH + 1), &reg) {
        Err(DecodeError::TooDeep { depth }) => assert_eq!(depth, MAX_CALL_DEPTH),
        other => panic!("expected TooDeep, got {:?}", kind_of(&other)),
    }
}

#[test]
fn round_trip_static_arguments() {
    let types = vec![ParamType::Address, ParamType::Uint(256), ParamType::Boolean];
    let addr: Vec<u8> = (1..=20).collect();
    let mut data = vec![0u8; 4];
    let mut aw = vec![0u8; 12];
    aw.extend(addr.clone());
    data.extend(aw);
    data.extend(word(123456789));
    data.extend(word(1));
    let vals = decode_args(&types, &data, 4).unwrap();
    assert_eq!(vals.len(), 3);
    match &vals[0] {
        DecodedValue::Address(b) => assert_eq!(*b, addr),
        _ => panic!("wrong type"),
    }
    match &vals[1] {
        DecodedValue::Uint(w) => assert_eq!(*w, word(123456789)),
        _ => panic!("wrong type"),
    }
    match &vals[2] {
        DecodedValue::Boolean(x) => assert!(*x),
        _ => panic!("wrong type"),
    }
}

#[test]
fn round_trip_dynamic_arguments() {
    // (bytes, uint256[]) with both tails after the two-word head region.
    let types = vec![
        ParamType::Bytes,
        ParamType::Array(Box::new(ParamType::Uint(256))),
    ];
    let payload = b"hello".to_vec();
    let mut data = vec![0u8; 4];
    data.extend(word(64));
    data.extend(word(64 + 32 + 32));
    data.extend(word(5));
    data.extend(pad32(payload.clone()));
    data.extend(word(2));
    data.extend(word(10));
    data.extend(word(20));
    let vals = decode_args(&types, &data, 4).unwrap();
    assert_eq!(vals.len(), 2);
    match &vals[0] {
        DecodedValue::Bytes(b) => assert_eq!(*b, payload),
        _ => panic!("wrong type"),
    }
    match &vals[1] {
        DecodedValue::Array(xs) => {
            assert_eq!(xs.len(), 2);
            match &xs[0] {
                DecodedValue::Uint(w) => assert_eq!(*w, word(10)),
                _ => panic!("wrong type"),
            }
            match &xs[1] {
                DecodedValue::Uint(w) => assert_eq!(*w, word(20)),
                _ => panic!("wrong type"),
            }
        }
        _ => panic!("wrong type"),
    }
}

#[test]
fn round_trip_nested_tuple() {
    let types = vec![ParamType::Tuple(vec![ParamType::Uint(256), ParamType::Boolean])];
    let mut data = vec![0u8; 4];
    data.extend(word(77));
    data.extend(word(0));
    let vals = decode_args(&types, &data, 4).unwrap();
    match &vals[0] {
        DecodedValue::Tuple(xs) => {
            match &xs[0] {
                DecodedValue::Uint(w) => assert_eq!(*w, word(77)),
                _ => panic!("wrong type"),
            }
            match &xs[1] {
                DecodedValue::Boolean(x) => assert!(!*x),
                _ => panic!("wrong type"),
            }
        }
        _ => panic!("wrong type"),
    }
}

fn kind_of(r: &Result<Vec<calltrace::decoder::DecodedCall>, DecodeError>) -> &'static str {
    match r {
        Ok(_) => "Ok",
        Err(DecodeError::Truncated) => "Truncated",
        Err(DecodeError::UnknownSelector(_)) => "UnknownSelector",
        Err(DecodeError::Malformed { .. }) => "Malformed",
        Err(DecodeError::TooDeep { .. }) => "TooDeep",
    }
}

#[test]
fn kind_names_follow_the_shape() {
    assert_eq!(kind_name(&DecodedValue::Address(vec![0; 20])), "Address");
    assert_eq!(kind_name(&DecodedValue::Bytes(vec![])), "Bytes");
    assert_eq!(kind_name(&DecodedValue::Tuple(vec![])), "Tuple");
}
