use vstd::prelude::*;
use crate::abi::{DecodedValue, AbiVal, val_view};
use crate::book::{AddressBook, Category, EntryV, book_resolve};
use crate::decoder::{DecodedCall, CallV};
use crate::numeric::push_char;

verus! {

broadcast use vstd::seq::group_seq_axioms, vstd::seq_lib::group_seq_lib_default, vstd::std_specs::vec::group_vec_axioms;

/// The value of the first field with this name.
pub open spec fn find_field(fields: Seq<(Seq<char>, AbiVal)>, name: Seq<char>) -> Option<AbiVal>
    decreases fields.len(),
{
    if fields.len() == 0 {
        None
    } else if fields[0].0 == name {
        Some(fields[0].1)
    } else {
        find_field(fields.drop_first(), name)
    }
}

/// The integer word of the first field with this name, or the zero-valued
/// empty word when the field is absent or not an unsigned integer.
pub open spec fn field_word(fields: Seq<(Seq<char>, AbiVal)>, name: Seq<char>) -> Seq<u8> {
    match find_field(fields, name) {
        Some(AbiVal::Uint(w)) => w,
        _ => Seq::empty(),
    }
}

/// The address bytes of the first field with this name, when it is an
/// address.
pub open spec fn field_addr(fields: Seq<(Seq<char>, AbiVal)>, name: Seq<char>) -> Option<Seq<u8>> {
    match find_field(fields, name) {
        Some(AbiVal::Address(b)) => Some(b),
        _ => None,
    }
}

/// The lower-case hex digit character for `d % 16`.
pub open spec fn hexdig(d: nat) -> char {
    if d % 16 < 10 {
        ((48 + d % 16) as u8) as char
    } else {
        ((87 + d % 16) as u8) as char
    }
}

/// Lower-case hex rendering of a byte string, two digits per byte.
pub open spec fn hex_of(b: Seq<u8>) -> Seq<char>
    decreases b.len(),
{
    if b.len() == 0 {
        Seq::empty()
    } else {
        hex_of(b.drop_last()) + seq![hexdig((b.last() / 16) as nat), hexdig((b.last() % 16) as nat)]
    }
}

/// The conventional form of an address: 0x, then lower-case hex.
pub open spec fn hex_str(b: Seq<u8>) -> Seq<char> {
    "0x"@ + hex_of(b)
}

/// The rendered recipient field, when present.
pub open spec fn recipient_of(fields: Seq<(Seq<char>, AbiVal)>) -> Option<Seq<char>> {
    match field_addr(fields, "recipient"@) {
        Some(b) => Some(hex_str(b)),
        None => None,
    }
}

/// The recognized economic effect of one decoded call.
pub enum TradeAction {
    NativeForToken { input_value: Vec<u8>, min_output: Vec<u8>, recipient: Option<String> },
    NativeForTokenExact { output: Vec<u8>, max_input: Vec<u8>, recipient: Option<String> },
    TokenForNative { input: Vec<u8>, min_output: Vec<u8>, recipient: Option<String> },
    TokenForNativeExact { output: Vec<u8>, max_input: Vec<u8>, recipient: Option<String> },
    TokenForToken {
        input: Vec<u8>,
        min_output: Vec<u8>,
        via_token: String,
        recipient: Option<String>,
    },
    TokenForTokenExact {
        output: Vec<u8>,
        max_input: Vec<u8>,
        via_token: String,
        recipient: Option<String>,
    },
    TokenForExchange {
        input: Vec<u8>,
        min_output: Vec<u8>,
        via_exchange: String,
        recipient: Option<String>,
    },
    TokenForExchangeExact {
        output: Vec<u8>,
        max_input: Vec<u8>,
        via_exchange: String,
        recipient: Option<String>,
    },
    NativePurchase { input_value: Vec<u8> },
    NotATrade,
}

/// The mathematical model of a trade action.
pub enum TradeV {
    NativeForToken { input_value: Seq<u8>, min_output: Seq<u8>, recipient: Option<Seq<char>> },
    NativeForTokenExact { output: Seq<u8>, max_input: Seq<u8>, recipient: Option<Seq<char>> },
    TokenForNative { input: Seq<u8>, min_output: Seq<u8>, recipient: Option<Seq<char>> },
    TokenForNativeExact { output: Seq<u8>, max_input: Seq<u8>, recipient: Option<Seq<char>> },
    TokenForToken {
        input: Seq<u8>,
        min_output: Seq<u8>,
        via_token: Seq<char>,
        recipient: Option<Seq<char>>,
    },
    TokenForTokenExact {
        output: Seq<u8>,
        max_input: Seq<u8>,
        via_token: Seq<char>,
        recipient: Option<Seq<char>>,
    },
    TokenForExchange {
        input: Seq<u8>,
        min_output: Seq<u8>,
        via_exchange: Seq<char>,
        recipient: Option<Seq<char>>,
    },
    TokenForExchangeExact {
        output: Seq<u8>,
        max_input: Seq<u8>,
        via_exchange: Seq<char>,
        recipient: Option<Seq<char>>,
    },
    NativePurchase { input_value: Seq<u8> },
    NotATrade,
}

pub open spec fn opt_str_view(o: Option<String>) -> Option<Seq<char>> {
    match o {
        Some(s) => Some(s@),
        None => None,
    }
}

impl View for TradeAction {
    type V = TradeV;

    open spec fn view(&self) -> TradeV {
        match self {
            TradeAction::NativeForToken { input_value, min_output, recipient } => TradeV::NativeForToken {
                input_value: input_value@,
                min_output: min_output@,
                recipient: opt_str_view(*recipient),
            },
            TradeAction::NativeForTokenExact { output, max_input, recipient } => TradeV::NativeForTokenExact {
                output: output@,
                max_input: max_input@,
                recipient: opt_str_view(*recipient),
            },
            TradeAction::TokenForNative { input, min_output, recipient } => TradeV::TokenForNative {
                input: input@,
                min_output: min_output@,
                recipient: opt_str_view(*recipient),
            },
            TradeAction::TokenForNativeExact { output, max_input, recipient } => TradeV::TokenForNativeExact {
                output: output@,
                max_input: max_input@,
                recipient: opt_str_view(*recipient),
            },
            TradeAction::TokenForToken { input, min_output, via_token, recipient } => TradeV::TokenForToken {
                input: input@,
                min_output: min_output@,
                via_token: via_token@,
                recipient: opt_str_view(*recipient),
            },
            TradeAction::TokenForTokenExact { output, max_input, via_token, recipient } => TradeV::TokenForTokenExact {
                output: output@,
                max_input: max_input@,
                via_token: via_token@,
                recipient: opt_str_view(*recipient),
            },
            TradeAction::TokenForExchange { input, min_output, via_exchange, recipient } => TradeV::TokenForExchange {
                input: input@,
                min_output: min_output@,
                via_exchange: via_exchange@,
                recipient: opt_str_view(*recipient),
            },
            TradeAction::TokenForExchangeExact { output, max_input, via_exchange, recipient } => TradeV::TokenForExchangeExact {
                output: output@,
                max_input: max_input@,
                via_exchange: via_exchange@,
                recipient: opt_str_view(*recipient),
            },
            TradeAction::NativePurchase { input_value } => TradeV::NativePurchase {
                input_value: input_value@,
            },
            TradeAction::NotATrade => TradeV::NotATrade,
        }
    }
}

/// A classification failure: the call references an address the book
/// cannot name.
#[derive(Debug)]
pub enum ClassifyError {
    UnknownAddress(String),
}

pub enum ClassErrV {
    UnknownAddress(Seq<char>),
}

impl View for ClassifyError {
    type V = ClassErrV;

    open spec fn view(&self) -> ClassErrV {
        match self {
            ClassifyError::UnknownAddress(s) => ClassErrV::UnknownAddress(s@),
        }
    }
}

/// The token or exchange referenced through the named address field,
/// resolved against the book; failure to resolve fails the whole
/// classification.
pub open spec fn resolve_field(
    fields: Seq<(Seq<char>, AbiVal)>,
    fname: Seq<char>,
    bv: Seq<EntryV>,
    network: Seq<char>,
    cat: Category,
) -> Result<Seq<char>, ClassErrV> {
    match field_addr(fields, fname) {
        None => Err(ClassErrV::UnknownAddress(Seq::empty())),
        Some(b) => match book_resolve(bv, network, cat, hex_str(b)) {
            None => Err(ClassErrV::UnknownAddress(hex_str(b))),
            Some(sym) => Ok(sym),
        },
    }
}

/// The classification rule: dispatch on the exact function name, read the
/// fields that name calls for, resolve address fields, fail closed on
/// unknown addresses, and pass every unrecognized name through as
/// NotATrade.
pub open spec fn spec_classify(
    c: CallV,
    value: Seq<u8>,
    bv: Seq<EntryV>,
    network: Seq<char>,
) -> Result<TradeV, ClassErrV> {
    let f = c.fields;
    if c.name == "__default__"@ {
        Ok(TradeV::NativePurchase { input_value: value })
    } else if c.name == "ethToTokenSwapInput"@ {
        Ok(
            TradeV::NativeForToken {
                input_value: value,
                min_output: field_word(f, "min_tokens"@),
                recipient: None,
            },
        )
    } else if c.name == "ethToTokenTransferInput"@ {
        Ok(
            TradeV::NativeForToken {
                input_value: value,
                min_output: field_word(f, "min_tokens"@),
                recipient: recipient_of(f),
            },
        )
    } else if c.name == "ethToTokenSwapOutput"@ {
        Ok(
            TradeV::NativeForTokenExact {
                output: field_word(f, "tokens_bought"@),
                max_input: value,
                recipient: None,
            },
        )
    } else if c.name == "ethToTokenTransferOutput"@ {
        Ok(
            TradeV::NativeForTokenExact {
                output: field_word(f, "tokens_bought"@),
                max_input: value,
                recipient: recipient_of(f),
            },
        )
    } else if c.name == "tokenToEthSwapInput"@ {
        Ok(
            TradeV::TokenForNative {
                input: field_word(f, "tokens_sold"@),
                min_output: field_word(f, "min_eth"@),
                recipient: None,
            },
        )
    } else if c.name == "tokenToEthTransferInput"@ {
        Ok(
            TradeV::TokenForNative {
                input: field_word(f, "tokens_sold"@),
                min_output: field_word(f, "min_eth"@),
                recipient: recipient_of(f),
            },
        )
    } else if c.name == "tokenToEthSwapOutput"@ {
        Ok(
            TradeV::TokenForNativeExact {
                output: field_word(f, "eth_bought"@),
                max_input: field_word(f, "max_tokens"@),
                recipient: None,
            },
        )
    } else if c.name == "tokenToEthTransferOutput"@ {
        Ok(
            TradeV::TokenForNativeExact {
                output: field_word(f, "eth_bought"@),
                max_input: field_word(f, "max_tokens"@),
                recipient: recipient_of(f),
            },
        )
    } else if c.name == "tokenToTokenSwapInput"@ {
        match resolve_field(f, "token_addr"@, bv, network, Category::Token) {
            Err(e) => Err(e),
            Ok(sym) => Ok(
                TradeV::TokenForToken {
                    input: field_word(f, "tokens_sold"@),
                    min_output: field_word(f, "min_tokens_bought"@),
                    via_token: sym,
                    recipient: None,
                },
            ),
        }
    } else if c.name == "tokenToTokenTransferInput"@ {
        match resolve_field(f, "token_addr"@, bv, network, Category::Token) {
            Err(e) => Err(e),
            Ok(sym) => Ok(
                TradeV::TokenForToken {
                    input: field_word(f, "tokens_sold"@),
                    min_output: field_word(f, "min_tokens_bought"@),
                    via_token: sym,
                    recipient: recipient_of(f),
                },
            ),
        }
    } else if c.name == "tokenToTokenSwapOutput"@ {
        match resolve_field(f, "token_addr"@, bv, network, Category::Token) {
            Err(e) => Err(e),
            Ok(sym) => Ok(
                TradeV::TokenForTokenExact {
                    output: field_word(f, "tokens_bought"@),
                    max_input: field_word(f, "max_tokens_sold"@),
                    via_token: sym,
                    recipient: None,
                },
            ),
        }
    } else if c.name == "tokenToTokenTransferOutput"@ {
        match resolve_field(f, "token_addr"@, bv, network, Category::Token) {
            Err(e) => Err(e),
            Ok(sym) => Ok(
                TradeV::TokenForTokenExact {
                    output: field_word(f, "tokens_bought"@),
                    max_input: field_word(f, "max_tokens_sold"@),
                    via_token: sym,
                    recipient: recipient_of(f),
                },
            ),
        }
    } else if c.name == "tokenToExchangeSwapInput"@ {
        match resolve_field(f, "exchange_addr"@, bv, network, Category::Exchange) {
            Err(e) => Err(e),
            Ok(sym) => Ok(
                TradeV::TokenForExchange {
                    input: field_word(f, "tokens_sold"@),
                    min_output: field_word(f, "min_tokens_bought"@),
                    via_exchange: sym,
                    recipient: None,
                },
            ),
        }
    } else if c.name == "tokenToExchangeTransferInput"@ {
        match resolve_field(f, "exchange_addr"@, bv, network, Category::Exchange) {
            Err(e) => Err(e),
            Ok(sym) => Ok(
                TradeV::TokenForExchange {
                    input: field_word(f, "tokens_sold"@),
                    min_output: field_word(f, "min_tokens_bought"@),
                    via_exchange: sym,
                    recipient: recipient_of(f),
                },
            ),
        }
    } else if c.name == "tokenToExchangeSwapOutput"@ {
        match resolve_field(f, "exchange_addr"@, bv, network, Category::Exchange) {
            Err(e) => Err(e),
            Ok(sym) => Ok(
                TradeV::TokenForExchangeExact {
                    output: field_word(f, "tokens_bought"@),
                    max_input: field_word(f, "max_tokens_sold"@),
                    via_exchange: sym,
                    recipient: None,
                },
            ),
        }
    } else if c.name == "tokenToExchangeTransferOutput"@ {
        match resolve_field(f, "exchange_addr"@, bv, network, Category::Exchange) {
            Err(e) => Err(e),
            Ok(sym) => Ok(
                TradeV::TokenForExchangeExact {
                    output: field_word(f, "tokens_bought"@),
                    max_input: field_word(f, "max_tokens_sold"@),
                    via_exchange: sym,
                    recipient: recipient_of(f),
                },
            ),
        }
    } else {
        Ok(TradeV::NotATrade)
    }
}

proof fn lemma_find_field_first(fields: Seq<(Seq<char>, AbiVal)>, name: Seq<char>, i: int)
    requires
        0 <= i < fields.len(),
        fields[i].0 == name,
        forall|j: int| 0 <= j < i ==> (#[trigger] fields[j]).0 != name,
    ensures
        find_field(fields, name) == Some(fields[i].1),
    decreases i,
{
    if i > 0 {
        lemma_find_field_first(fields.drop_first(), name, i - 1);
    }
}

proof fn lemma_find_field_none(fields: Seq<(Seq<char>, AbiVal)>, name: Seq<char>)
    requires
        forall|j: int| 0 <= j < fields.len() ==> (#[trigger] fields[j]).0 != name,
    ensures
        find_field(fields, name) is None,
    decreases fields.len(),
{
    if fields.len() > 0 {
        lemma_find_field_none(fields.drop_first(), name);
    }
}

/// Exact string equality against a literal.
pub fn str_is(s: &String, lit: &str) -> (r: bool)
    ensures
        r == (s@ == lit@),
{
    let l: String = lit.to_owned();
    *s == l
}

/// Finds the first field with this name.
fn find_field_x<'a>(fields: &'a Vec<(String, DecodedValue)>, name: &str) -> (r: Option<
    &'a DecodedValue,
>)
    ensures
        match r {
            Some(v) => find_field(crate::decoder::fields_view(fields@), name@) == Some(
                val_view(*v),
            ),
            None => find_field(crate::decoder::fields_view(fields@), name@) is None,
        },
{
    let ghost fv = crate::decoder::fields_view(fields@);
    let mut i: usize = 0;
    while i < fields.len()
        invariant
            0 <= i <= fields@.len(),
            fv == crate::decoder::fields_view(fields@),
            fv.len() == fields@.len(),
            forall|j: int| 0 <= j < fv.len() ==> (#[trigger] fv[j]) == (
                fields@[j].0@,
                val_view(fields@[j].1),
            ),
            forall|j: int| 0 <= j < i ==> (#[trigger] fv[j]).0 != name@,
        decreases fields@.len() - i,
    {
        if str_is(&fields[i].0, name) {
            proof {
                lemma_find_field_first(fv, name@, i as int);
            }
            return Some(&fields[i].1);
        }
        i += 1;
    }
    proof {
        lemma_find_field_none(fv, name@);
    }
    None
}

/// Reads the named unsigned-integer field, with the zero-valued empty
/// word for an absent or differently typed field.
fn get_word(call: &DecodedCall, name: &str) -> (r: Vec<u8>)
    ensures
        r@ == field_word(call@.fields, name@),
{
    match find_field_x(&call.fields, name) {
        Some(v) => match v {
            DecodedValue::Uint(w) => {
                let c = crate::abi_exec::copy_range(w, 0, w.len());
                proof {
                    assert(c@ =~= w@);
                }
                c
            },
            _ => Vec::new(),
        },
        None => Vec::new(),
    }
}

/// Reads the named address field.
fn get_addr(call: &DecodedCall, name: &str) -> (r: Option<Vec<u8>>)
    ensures
        match r {
            Some(b) => field_addr(call@.fields, name@) == Some(b@),
            None => field_addr(call@.fields, name@) is None,
        },
{
    match find_field_x(&call.fields, name) {
        Some(v) => match v {
            DecodedValue::Address(b) => {
                let c = crate::abi_exec::copy_range(b, 0, b.len());
                proof {
                    assert(c@ =~= b@);
                }
                Some(c)
            },
            _ => None,
        },
        None => None,
    }
}

/// Renders an address conventionally: 0x and lower-case hex digits.
pub fn hex_str_x(b: &Vec<u8>) -> (r: String)
    ensures
        r@ == hex_str(b@),
{
    let mut s: String = "0x".to_owned();
    let mut i: usize = 0;
    proof {
        assert(b@.take(0) =~= Seq::<u8>::empty());
        assert(s@ =~= "0x"@ + hex_of(b@.take(0)));
    }
    while i < b.len()
        invariant
            0 <= i <= b@.len(),
            s@ == "0x"@ + hex_of(b@.take(i as int)),
        decreases b@.len() - i,
    {
        let ghost before = s@;
        let byte: u8 = b[i];
        let hi: u8 = byte / 16;
        let lo: u8 = byte % 16;
        let c1: char = if hi < 10 {
            (48 + hi) as char
        } else {
            (87 + hi) as char
        };
        let c2: char = if lo < 10 {
            (48 + lo) as char
        } else {
            (87 + lo) as char
        };
        push_char(&mut s, c1);
        push_char(&mut s, c2);
        proof {
            assert(b@.take(i + 1).drop_last() =~= b@.take(i as int));
            assert(b@.take(i + 1).last() == b@[i as int]);
            assert(c1 == hexdig((b@[i as int] / 16) as nat));
            assert(c2 == hexdig((b@[i as int] % 16) as nat));
            assert(s@ =~= before + seq![c1, c2]);
            assert(hex_of(b@.take(i + 1)) == hex_of(b@.take(i as int)) + seq![c1, c2]);
            assert(("0x"@ + hex_of(b@.take(i as int))) + seq![c1, c2] =~= "0x"@ + (hex_of(
                b@.take(i as int),
            ) + seq![c1, c2]));
        }
        i += 1;
    }
    proof {
        assert(b@.take(b@.len() as int) =~= b@);
    }
    s
}

/// Resolves the named address field against the book, failing closed.
fn resolve_field_x(
    call: &DecodedCall,
    fname: &str,
    book: &AddressBook,
    network: &str,
    cat: Category,
) -> (r: Result<String, ClassifyError>)
    ensures
        match r {
            Ok(sym) => resolve_field(call@.fields, fname@, book@, network@, cat) == Ok::<
                Seq<char>,
                ClassErrV,
            >(sym@),
            Err(e) => resolve_field(call@.fields, fname@, book@, network@, cat) == Err::<
                Seq<char>,
                ClassErrV,
            >(e@),
        },
{
    match get_addr(call, fname) {
        None => {
            let empty: String = String::new();
            proof {
                assert(empty@ =~= Seq::<char>::empty());
            }
            Err(ClassifyError::UnknownAddress(empty))
        },
        Some(b) => {
            let hx = hex_str_x(&b);
            match book.resolve(network, cat, hx.as_str()) {
                None => Err(ClassifyError::UnknownAddress(hx)),
                Some(sym) => Ok(sym),
            }
        },
    }
}

/// Reads the recipient field, rendered conventionally, when present.
fn get_recipient(call: &DecodedCall) -> (r: Option<String>)
    ensures
        opt_str_view(r) == recipient_of(call@.fields),
{
    match get_addr(call, "recipient") {
        Some(b) => Some(hex_str_x(&b)),
        None => None,
    }
}

/// Classifies one decoded call against the address book. The native value
/// attached to the transaction is supplied alongside the call.
pub fn classify(call: &DecodedCall, value: &Vec<u8>, book: &AddressBook, network: &str) -> (r:
    Result<TradeAction, ClassifyError>)
    ensures
        match r {
            Ok(t) => spec_classify(call@, value@, book@, network@) == Ok::<TradeV, ClassErrV>(t@),
            Err(e) => spec_classify(call@, value@, book@, network@) == Err::<TradeV, ClassErrV>(
                e@,
            ),
        },
{
    let val = crate::abi_exec::copy_range(value, 0, value.len());
    proof {
        assert(val@ =~= value@);
    }
    if str_is(&call.name, "__default__") {
        Ok(TradeAction::NativePurchase { input_value: val })
    } else if str_is(&call.name, "ethToTokenSwapInput") {
        Ok(
            TradeAction::NativeForToken {
                input_value: val,
                min_output: get_word(call, "min_tokens"),
                recipient: None,
            },
        )
    } else if str_is(&call.name, "ethToTokenTransferInput") {
        Ok(
            TradeAction::NativeForToken {
                input_value: val,
                min_output: get_word(call, "min_tokens"),
                recipient: get_recipient(call),
            },
        )
    } else if str_is(&call.name, "ethToTokenSwapOutput") {
        Ok(
            TradeAction::NativeForTokenExact {
                output: get_word(call, "tokens_bought"),
                max_input: val,
                recipient: None,
            },
        )
    } else if str_is(&call.name, "ethToTokenTransferOutput") {
        Ok(
            TradeAction::NativeForTokenExact {
                output: get_word(call, "tokens_bought"),
                max_input: val,
                recipient: get_recipient(call),
            },
        )
    } else if str_is(&call.name, "tokenToEthSwapInput") {
        Ok(
            TradeAction::TokenForNative {
                input: get_word(call, "tokens_sold"),
                min_output: get_word(call, "min_eth"),
                recipient: None,
            },
        )
    } else if str_is(&call.name, "tokenToEthTransferInput") {
        Ok(
            TradeAction::TokenForNative {
                input: get_word(call, "tokens_sold"),
                min_output: get_word(call, "min_eth"),
                recipient: get_recipient(call),
            },
        )
    } else if str_is(&call.name, "tokenToEthSwapOutput") {
        Ok(
            TradeAction::TokenForNativeExact {
                output: get_word(call, "eth_bought"),
                max_input: get_word(call, "max_tokens"),
                recipient: None,
            },
        )
    } else if str_is(&call.name, "tokenToEthTransferOutput") {
        Ok(
            TradeAction::TokenForNativeExact {
                output: get_word(call, "eth_bought"),
                max_input: get_word(call, "max_tokens"),
                recipient: get_recipient(call),
            },
        )
    } else if str_is(&call.name, "tokenToTokenSwapInput") {
        match resolve_field_x(call, "token_addr", book, network, Category::Token) {
            Err(e) => Err(e),
            Ok(sym) => Ok(
                TradeAction::TokenForToken {
                    input: get_word(call, "tokens_sold"),
                    min_output: get_word(call, "min_tokens_bought"),
                    via_token: sym,
                    recipient: None,
                },
            ),
        }
    } else if str_is(&call.name, "tokenToTokenTransferInput") {
        match resolve_field_x(call, "token_addr", book, network, Category::Token) {
            Err(e) => Err(e),
            Ok(sym) => Ok(
                TradeAction::TokenForToken {
                    input: get_word(call, "tokens_sold"),
                    min_output: get_word(call, "min_tokens_bought"),
                    via_token: sym,
                    recipient: get_recipient(call),
                },
            ),
        }
    } else if str_is(&call.name, "tokenToTokenSwapOutput") {
        match resolve_field_x(call, "token_addr", book, network, Category::Token) {
            Err(e) => Err(e),
            Ok(sym) => Ok(
                TradeAction::TokenForTokenExact {
                    output: get_word(call, "tokens_bought"),
                    max_input: get_word(call, "max_tokens_sold"),
                    via_token: sym,
                    recipient: None,
                },
            ),
        }
    } else if str_is(&call.name, "tokenToTokenTransferOutput") {
        match resolve_field_x(call, "token_addr", book, network, Category::Token) {
            Err(e) => Err(e),
            Ok(sym) => Ok(
                TradeAction::TokenForTokenExact {
                    output: get_word(call, "tokens_bought"),
                    max_input: get_word(call, "max_tokens_sold"),
                    via_token: sym,
                    recipient: get_recipient(call),
                },
            ),
        }
    } else if str_is(&call.name, "tokenToExchangeSwapInput") {
        match resolve_field_x(call, "exchange_addr", book, network, Category::Exchange) {
            Err(e) => Err(e),
            Ok(sym) => Ok(
                TradeAction::TokenForExchange {
                    input: get_word(call, "tokens_sold"),
                    min_output: get_word(call, "min_tokens_bought"),
                    via_exchange: sym,
                    recipient: None,
                },
            ),
        }
    } else if str_is(&call.name, "tokenToExchangeTransferInput") {
        match resolve_field_x(call, "exchange_addr", book, network, Category::Exchange) {
            Err(e) => Err(e),
            Ok(sym) => Ok(
                TradeAction::TokenForExchange {
                    input: get_word(call, "tokens_sold"),
                    min_output: get_word(call, "min_tokens_bought"),
                    via_exchange: sym,
                    recipient: get_recipient(call),
                },
            ),
        }
    } else if str_is(&call.name, "tokenToExchangeSwapOutput") {
        match resolve_field_x(call, "exchange_addr", book, network, Category::Exchange) {
            Err(e) => Err(e),
            Ok(sym) => Ok(
                TradeAction::TokenForExchangeExact {
                    output: get_word(call, "tokens_bought"),
                    max_input: get_word(call, "max_tokens_sold"),
                    via_exchange: sym,
                    recipient: None,
                },
            ),
        }
    } else if str_is(&call.name, "tokenToExchangeTransferOutput") {
        match resolve_field_x(call, "exchange_addr", book, network, Category::Exchange) {
            Err(e) => Err(e),
            Ok(sym) => Ok(
                TradeAction::TokenForExchangeExact {
                    output: get_word(call, "tokens_bought"),
                    max_input: get_word(call, "max_tokens_sold"),
                    via_exchange: sym,
                    recipient: get_recipient(call),
                },
            ),
        }
    } else {
        Ok(TradeAction::NotATrade)
    }
}

} // verus!
