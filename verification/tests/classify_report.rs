use calltrace::abi::DecodedValue;
use calltrace::addresses;
use calltrace::book::{AddressBook, AddressEntry, Category};
use calltrace::classify::{classify, ClassifyError, TradeAction};
use calltrace::decoder::DecodedCall;
use calltrace::numeric::{word_from_u128, word_to_dec};
use calltrace::pipeline::TradeError;
use calltrace::report::describe;

fn hexv(s: &str) -> Vec<u8> {
    let s = s.trim_start_matches("0x");
    (0..s.len() / 2)
        .map(|i| u8::from_str_radix(&s[2 * i..2 * i + 2], 16).unwrap())
        .collect()
}

fn eth_book() -> AddressBook {
    let mut entries = addresses::eth::tokens();
    entries.extend(addresses::eth::uniswap_v1_dexes());
    AddressBook::new(entries).unwrap()
}

fn call(name: &str, fields: Vec<(&str, DecodedValue)>) -> DecodedCall {
    DecodedCall {
        name: name.to_string(),
        fields: fields.into_iter().map(|(n, v)| (n.to_string(), v)).collect(),
        depth: 0,
    }
}

#[test]
fn unknown_token_address_fails_closed() {
    let book = eth_book();
    let c = call(
        "tokenToTokenSwapInput",
        vec![
            ("tokens_sold", DecodedValue::Uint(word_from_u128(50))),
            ("min_tokens_bought", DecodedValue::Uint(word_from_u128(40))),
            ("token_addr", DecodedValue::Address(vec![0x11; 20])),
        ],
    );
    match classify(&c, &word_from_u128(0), &book, "eth") {
        Err(ClassifyError::UnknownAddress(a)) => {
            assert_eq!(a, format!("0x{}", "11".repeat(20)));
        }
        Ok(_) => panic!("an unknown token address must never classify as a trade"),
    }
}

#[test]
fn native_for_token_example() {
    let book = eth_book();
    let c = call(
        "ethToTokenSwapInput",
        vec![
            ("min_tokens", DecodedValue::Uint(word_from_u128(1000))),
            ("deadline", DecodedValue::Uint(word_from_u128(1234))),
        ],
    );
    let value = word_from_u128(500_000_000_000_000_000);
    let action = classify(&c, &value, &book, "eth").unwrap();
    match &action {
        TradeAction::NativeForToken { input_value, min_output, recipient } => {
            assert_eq!(*input_value, value);
            assert_eq!(*min_output, word_from_u128(1000));
            assert!(recipient.is_none());
        }
        _ => panic!("expected a native-for-token action"),
    }
    let line = describe(&Ok::<TradeAction, TradeError>(action));
    assert!(line.contains("1000"));
    assert!(line.contains("500000000000000000"));
    assert_eq!(
        line,
        "Bought 500000000000000000 WEI worth of tokens, with a minimum of 1000 tokens"
    );
}

#[test]
fn token_for_token_resolves_symbol_case() {
    let book = eth_book();
    // The on-chain bytes render lower-case; the book holds mixed case.
    let usdc = hexv("0xA0b86991c6218b36c1d19D4a2e9Eb0cE3606eB48");
    let c = call(
        "tokenToTokenSwapInput",
        vec![
            ("tokens_sold", DecodedValue::Uint(word_from_u128(3))),
            ("min_tokens_bought", DecodedValue::Uint(word_from_u128(2))),
            ("token_addr", DecodedValue::Address(usdc)),
        ],
    );
    match classify(&c, &word_from_u128(0), &book, "eth").unwrap() {
        TradeAction::TokenForToken { via_token, .. } => assert_eq!(via_token, "usdc"),
        _ => panic!("expected a token-for-token action"),
    }
}

#[test]
fn exchange_address_resolves_in_its_own_category() {
    let book = eth_book();
    let dex_usdt = hexv("0xc8313c965C47D1E0B5cDCD757B210356AD0e400C");
    let c = call(
        "tokenToExchangeSwapInput",
        vec![
            ("tokens_sold", DecodedValue::Uint(word_from_u128(9))),
            ("min_tokens_bought", DecodedValue::Uint(word_from_u128(8))),
            ("exchange_addr", DecodedValue::Address(dex_usdt)),
        ],
    );
    match classify(&c, &word_from_u128(0), &book, "eth").unwrap() {
        TradeAction::TokenForExchange { via_exchange, .. } => assert_eq!(via_exchange, "usdt"),
        _ => panic!("expected a token-for-exchange action"),
    }
}

#[test]
fn recipient_is_carried_through() {
    let book = eth_book();
    let rec = vec![0xabu8; 20];
    let c = call(
        "ethToTokenTransferInput",
        vec![
            ("min_tokens", DecodedValue::Uint(word_from_u128(4))),
            ("recipient", DecodedValue::Address(rec)),
        ],
    );
    let action = classify(&c, &word_from_u128(10), &book, "eth").unwrap();
    match &action {
        TradeAction::NativeForToken { recipient, .. } => {
            assert_eq!(recipient.as_deref(), Some(format!("0x{}", "ab".repeat(20)).as_str()));
        }
        _ => panic!("expected a native-for-token action"),
    }
    let line = describe(&Ok::<TradeAction, TradeError>(action));
    assert!(line.ends_with(&format!(", for the recipient 0x{}", "ab".repeat(20))));
}

#[test]
fn unrecognized_name_is_not_a_trade() {
    let book = eth_book();
    let c = call("approve", vec![]);
    match classify(&c, &word_from_u128(0), &book, "eth").unwrap() {
        TradeAction::NotATrade => {}
        _ => panic!("an unrecognized name must classify as not a trade"),
    }
    let line = describe(&Ok::<TradeAction, TradeError>(TradeAction::NotATrade));
    assert_eq!(line, "Called function does not perform a trade");
}

#[test]
fn default_call_is_a_plain_purchase() {
    let book = eth_book();
    let c = call("__default__", vec![]);
    let action = classify(&c, &word_from_u128(42), &book, "eth").unwrap();
    let line = describe(&Ok::<TradeAction, TradeError>(action));
    assert_eq!(line, "Bought 42 WEI worth of tokens");
}

#[test]
fn token_for_native_rendering() {
    let action = TradeAction::TokenForNative {
        input: word_from_u128(77),
        min_output: word_from_u128(66),
        recipient: None,
    };
    let line = describe(&Ok::<TradeAction, TradeError>(action));
    assert_eq!(line, "Sold 77 tokens, for a minimum of 66 WEI");
}

#[test]
fn decimal_rendering_is_exact() {
    assert_eq!(word_to_dec(&word_from_u128(0)), "0");
    assert_eq!(word_to_dec(&word_from_u128(12345)), "12345");
    assert_eq!(
        word_to_dec(&word_from_u128(1267650600228229401496703205376)),
        "1267650600228229401496703205376"
    );
    let mut big = vec![0xffu8; 32];
    big[0] = 0xff;
    assert_eq!(
        word_to_dec(&big),
        "115792089237316195423570985008687907853269984665640564039457584007913129639935"
    );
}

#[test]
fn book_rejects_duplicate_symbols() {
    let mk = |sym: &str, addr: &str| AddressEntry {
        network: "eth".to_string(),
        category: Category::Token,
        symbol: sym.to_string(),
        address: addr.to_string(),
    };
    let dup = vec![mk("usdt", "0x01"), mk("usdt", "0x02")];
    assert!(AddressBook::new(dup).is_err());
    let distinct = vec![mk("usdt", "0x01"), mk("usdc", "0x02")];
    assert!(AddressBook::new(distinct).is_ok());
}

#[test]
fn book_resolution_ignores_address_case() {
    let book = eth_book();
    assert_eq!(
        book.resolve("eth", Category::Token, "0xDAC17F958D2EE523A2206206994597C13D831EC7"),
        Some("usdt".to_string())
    );
    assert_eq!(
        book.resolve("eth", Category::Token, "0xdac17f958d2ee523a2206206994597c13d831ec7"),
        Some("usdt".to_string())
    );
    assert_eq!(book.resolve("eth", Category::Exchange, "0x0000000000000000000000000000000000000000"), None);
    assert_eq!(
        book.lookup("eth", Category::Token, "usdt"),
        Some("0xdAC17F958D2ee523a2206206994597C13D831ec7".to_string())
    );
}

#[test]
fn address_tables_hold_the_known_entries() {
    let eth_tokens = addresses::eth::tokens();
    assert_eq!(eth_tokens.len(), 8);
    assert_eq!(eth_tokens[0].symbol, "usdt");
    let dexes = addresses::eth::uniswap_v1_dexes();
    assert_eq!(dexes.len(), 6);
    assert!(dexes.iter().all(|e| e.category == Category::Exchange));
    let bsc_tokens = addresses::bsc::tokens();
    assert_eq!(bsc_tokens.len(), 7);
    assert_eq!(bsc_tokens[5].symbol, "bep20eth");
    assert_eq!(
        addresses::eth::uniswap_universal_router(),
        "0xEf1c6E67703c7BD7107eed8303Fbe6EC2554BF6B"
    );
    assert_eq!(
        addresses::eth::pancakeswap_smart_router(),
        addresses::bsc::pancakeswap_smart_router()
    );
}
