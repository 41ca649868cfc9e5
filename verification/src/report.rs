use vstd::prelude::*;
use crate::classify::{TradeAction, TradeV, ClassifyError, ClassErrV};
use crate::decoder::{DecodeError, DecErrV};
use crate::numeric::{be_nat, dec_str, word_to_dec};
use crate::pipeline::{TradeError, TradeErrV};

verus! {

broadcast use vstd::seq::group_seq_axioms;

/// The rendered suffix naming an explicit recipient, when there is one.
pub open spec fn rec_suffix(o: Option<Seq<char>>) -> Seq<char> {
    match o {
        None => Seq::empty(),
        Some(r) => ", for the recipient "@ + r,
    }
}

/// The one rendering of each trade action.
pub open spec fn spec_describe_action(t: TradeV) -> Seq<char> {
    match t {
        TradeV::NativePurchase { input_value } => "Bought "@ + dec_str(be_nat(input_value))
            + " WEI worth of tokens"@,
        TradeV::NativeForToken { input_value, min_output, recipient } => "Bought "@ + dec_str(
            be_nat(input_value),
        ) + " WEI worth of tokens, with a minimum of "@ + dec_str(be_nat(min_output)) + " tokens"@
            + rec_suffix(recipient),
        TradeV::NativeForTokenExact { output, max_input, recipient } => "Bought "@ + dec_str(
            be_nat(output),
        ) + " tokens, with a maximum of "@ + dec_str(be_nat(max_input)) + " WEI"@ + rec_suffix(
            recipient,
        ),
        TradeV::TokenForNative { input, min_output, recipient } => "Sold "@ + dec_str(be_nat(input))
            + " tokens, for a minimum of "@ + dec_str(be_nat(min_output)) + " WEI"@ + rec_suffix(
            recipient,
        ),
        TradeV::TokenForNativeExact { output, max_input, recipient } => "Sold "@ + dec_str(
            be_nat(output),
        ) + " WEI worth of tokens, for a maximum of "@ + dec_str(be_nat(max_input)) + " tokens"@
            + rec_suffix(recipient),
        TradeV::TokenForToken { input, min_output, via_token, recipient } => "Sold "@ + dec_str(
            be_nat(input),
        ) + " tokens, with a minimum of "@ + dec_str(be_nat(min_output)) + " "@ + via_token
            + " tokens"@ + rec_suffix(recipient),
        TradeV::TokenForTokenExact { output, max_input, via_token, recipient } => "Bought "@
            + dec_str(be_nat(output)) + " "@ + via_token + " tokens, with a maximum of "@ + dec_str(
            be_nat(max_input),
        ) + " tokens"@ + rec_suffix(recipient),
        TradeV::TokenForExchange { input, min_output, via_exchange, recipient } => "Sold "@
            + dec_str(be_nat(input)) + " tokens, with a minimum of "@ + dec_str(be_nat(min_output))
            + " "@ + via_exchange + " tokens"@ + rec_suffix(recipient),
        TradeV::TokenForExchangeExact { output, max_input, via_exchange, recipient } => "Bought "@
            + dec_str(be_nat(output)) + " "@ + via_exchange + " tokens, with a maximum of "@
            + dec_str(be_nat(max_input)) + " tokens"@ + rec_suffix(recipient),
        TradeV::NotATrade => "Called function does not perform a trade"@,
    }
}

/// The one rendering of each failure.
pub open spec fn spec_describe_error(e: TradeErrV) -> Seq<char> {
    match e {
        TradeErrV::Decode(DecErrV::Truncated) => "Error: call data is truncated"@,
        TradeErrV::Decode(DecErrV::UnknownSelector(_)) => "Error: unknown function selector"@,
        TradeErrV::Decode(DecErrV::Malformed { .. }) => "Error: malformed call data"@,
        TradeErrV::Decode(DecErrV::TooDeep { .. }) => "Error: nested calls exceed the depth limit"@,
        TradeErrV::Classify(ClassErrV::UnknownAddress(_)) => "Error: trading with illegal token"@,
    }
}

pub open spec fn spec_describe(r: Result<TradeV, TradeErrV>) -> Seq<char> {
    match r {
        Ok(t) => spec_describe_action(t),
        Err(e) => spec_describe_error(e),
    }
}

fn append_rec(s: &mut String, recipient: &Option<String>)
    ensures
        final(s)@ == old(s)@ + rec_suffix(crate::classify::opt_str_view(*recipient)),
{
    match recipient {
        None => {
            proof {
                assert(old(s)@ + Seq::<char>::empty() =~= old(s)@);
            }
        },
        Some(r) => {
            s.append(", for the recipient ");
            s.append(r.as_str());
        },
    }
}

/// Renders one pipeline outcome as a descriptive line; total, one
/// rendering per variant.
pub fn describe(r: &Result<TradeAction, TradeError>) -> (out: String)
    ensures
        out@ == spec_describe(
            match r {
                Ok(t) => Ok(t@),
                Err(e) => Err(e@),
            },
        ),
{
    match r {
        Err(TradeError::Decode(DecodeError::Truncated)) => "Error: call data is truncated".to_owned(),
        Err(TradeError::Decode(DecodeError::UnknownSelector(_))) => "Error: unknown function selector".to_owned(),
        Err(TradeError::Decode(DecodeError::Malformed { .. })) => "Error: malformed call data".to_owned(),
        Err(TradeError::Decode(DecodeError::TooDeep { .. })) => "Error: nested calls exceed the depth limit".to_owned(),
        Err(TradeError::Classify(ClassifyError::UnknownAddress(_))) => "Error: trading with illegal token".to_owned(),
        Ok(t) => describe_action(t),
    }
}

/// Renders one trade action.
pub fn describe_action(t: &TradeAction) -> (out: String)
    ensures
        out@ == spec_describe_action(t@),
{
    match t {
        TradeAction::NativePurchase { input_value } => {
            let mut s: String = "Bought ".to_owned();
            let d = word_to_dec(input_value);
            s.append(d.as_str());
            s.append(" WEI worth of tokens");
            s
        },
        TradeAction::NativeForToken { input_value, min_output, recipient } => {
            let mut s: String = "Bought ".to_owned();
            let d = word_to_dec(input_value);
            s.append(d.as_str());
            s.append(" WEI worth of tokens, with a minimum of ");
            let d2 = word_to_dec(min_output);
            s.append(d2.as_str());
            s.append(" tokens");
            append_rec(&mut s, recipient);
            s
        },
        TradeAction::NativeForTokenExact { output, max_input, recipient } => {
            let mut s: String = "Bought ".to_owned();
            let d = word_to_dec(output);
            s.append(d.as_str());
            s.append(" tokens, with a maximum of ");
            let d2 = word_to_dec(max_input);
            s.append(d2.as_str());
            s.append(" WEI");
            append_rec(&mut s, recipient);
            s
        },
        TradeAction::TokenForNative { input, min_output, recipient } => {
            let mut s: String = "Sold ".to_owned();
            let d = word_to_dec(input);
            s.append(d.as_str());
            s.append(" tokens, for a minimum of ");
            let d2 = word_to_dec(min_output);
            s.append(d2.as_str());
            s.append(" WEI");
            append_rec(&mut s, recipient);
            s
        },
        TradeAction::TokenForNativeExact { output, max_input, recipient } => {
            let mut s: String = "Sold ".to_owned();
            let d = word_to_dec(output);
            s.append(d.as_str());
            s.append(" WEI worth of tokens, for a maximum of ");
            let d2 = word_to_dec(max_input);
            s.append(d2.as_str());
            s.append(" tokens");
            append_rec(&mut s, recipient);
            s
        },
        TradeAction::TokenForToken { input, min_output, via_token, recipient } => {
            let mut s: String = "Sold ".to_owned();
            let d = word_to_dec(input);
            s.append(d.as_str());
            s.append(" tokens, with a minimum of ");
            let d2 = word_to_dec(min_output);
            s.append(d2.as_str());
            s.append(" ");
            s.append(via_token.as_str());
            s.append(" tokens");
            append_rec(&mut s, recipient);
            s
        },
        TradeAction::TokenForTokenExact { output, max_input, via_token, recipient } => {
            let mut s: String = "Bought ".to_owned();
            let d = word_to_dec(output);
            s.append(d.as_str());
            s.append(" ");
            s.append(via_token.as_str());
            s.append(" tokens, with a maximum of ");
            let d2 = word_to_dec(max_input);
            s.append(d2.as_str());
            s.append(" tokens");
            append_rec(&mut s, recipient);
            s
        },
        TradeAction::TokenForExchange { input, min_output, via_exchange, recipient } => {
            let mut s: String = "Sold ".to_owned();
            let d = word_to_dec(input);
            s.append(d.as_str());
            s.append(" tokens, with a minimum of ");
            let d2 = word_to_dec(min_output);
            s.append(d2.as_str());
            s.append(" ");
            s.append(via_exchange.as_str());
            s.append(" tokens");
            append_rec(&mut s, recipient);
            s
        },
        TradeAction::TokenForExchangeExact { output, max_input, via_exchange, recipient } => {
            let mut s: String = "Bought ".to_owned();
            let d = word_to_dec(output);
            s.append(d.as_str());
            s.append(" ");
            s.append(via_exchange.as_str());
            s.append(" tokens, with a maximum of ");
            let d2 = word_to_dec(max_input);
            s.append(d2.as_str());
            s.append(" tokens");
            append_rec(&mut s, recipient);
            s
        },
        TradeAction::NotATrade => "Called function does not perform a trade".to_owned(),
    }
}

} // verus!
