use vstd::prelude::*;
use crate::book::{AddressBook, EntryV};
use crate::classify::{TradeAction, TradeV, ClassifyError, ClassErrV, classify, spec_classify};
use crate::decoder::{
    DecodedCall, CallV, DecodeError, DecErrV, decode, spec_decode_call, calls_view,
};
use crate::registry::{FunctionRegistry, SigV};

verus! {

broadcast use vstd::seq::group_seq_axioms, vstd::std_specs::vec::group_vec_axioms;

/// A failure anywhere along the pipeline.
pub enum TradeError {
    Decode(DecodeError),
    Classify(ClassifyError),
}

pub enum TradeErrV {
    Decode(DecErrV),
    Classify(ClassErrV),
}

impl View for TradeError {
    type V = TradeErrV;

    open spec fn view(&self) -> TradeErrV {
        match self {
            TradeError::Decode(e) => TradeErrV::Decode(e@),
            TradeError::Classify(e) => TradeErrV::Classify(e@),
        }
    }
}

pub open spec fn results_view(s: Seq<Result<TradeAction, TradeError>>) -> Seq<
    Result<TradeV, TradeErrV>,
> {
    Seq::new(
        s.len(),
        |i: int|
            match s[i] {
                Ok(t) => Ok(t@),
                Err(e) => Err(e@),
            },
    )
}

/// The whole rule: decode the call data, then classify each decoded call
/// in the pre-order sequence; a decode failure is the single outcome.
pub open spec fn spec_pipeline(
    rv: Seq<(Seq<u8>, SigV)>,
    bv: Seq<EntryV>,
    data: Seq<u8>,
    value: Seq<u8>,
    network: Seq<char>,
) -> Seq<Result<TradeV, TradeErrV>> {
    match spec_decode_call(rv, data, 0) {
        Err(e) => seq![Err(TradeErrV::Decode(e))],
        Ok(calls) => Seq::new(
            calls.len(),
            |i: int|
                match spec_classify(calls[i], value, bv, network) {
                    Ok(t) => Ok(t),
                    Err(e) => Err(TradeErrV::Classify(e)),
                },
        ),
    }
}

/// Decodes raw call data and classifies every decoded call, one outcome
/// per call in decoding order.
pub fn decode_and_classify(
    data: &Vec<u8>,
    value: &Vec<u8>,
    reg: &FunctionRegistry,
    book: &AddressBook,
    network: &str,
) -> (r: Vec<Result<TradeAction, TradeError>>)
    requires
        reg.wf(),
    ensures
        results_view(r@) == spec_pipeline(reg@, book@, data@, value@, network@),
{
    match decode(data, reg) {
        Err(e) => {
            let mut out: Vec<Result<TradeAction, TradeError>> = Vec::new();
            let ghost ev = e@;
            out.push(Err(TradeError::Decode(e)));
            proof {
                assert(results_view(out@) =~= seq![
                    Err::<TradeV, TradeErrV>(TradeErrV::Decode(ev)),
                ]);
            }
            out
        },
        Ok(calls) => {
            let ghost cv = calls_view(calls@);
            let mut out: Vec<Result<TradeAction, TradeError>> = Vec::new();
            let mut i: usize = 0;
            while i < calls.len()
                invariant
                    0 <= i <= calls@.len(),
                    cv == calls_view(calls@),
                    cv.len() == calls@.len(),
                    reg.wf(),
                    out@.len() == i,
                    forall|j: int| 0 <= j < calls@.len() ==> (#[trigger] cv[j]) == calls@[j]@,
                    forall|j: int|
                        0 <= j < i ==> (#[trigger] results_view(out@)[j]) == (match spec_classify(
                            cv[j],
                            value@,
                            book@,
                            network@,
                        ) {
                            Ok(t) => Ok::<TradeV, TradeErrV>(t),
                            Err(e) => Err::<TradeV, TradeErrV>(TradeErrV::Classify(e)),
                        }),
                decreases calls@.len() - i,
            {
                let ghost prev = out@;
                match classify(&calls[i], value, book, network) {
                    Ok(t) => {
                        out.push(Ok(t));
                    },
                    Err(e) => {
                        out.push(Err(TradeError::Classify(e)));
                    },
                }
                proof {
                    let rv2 = results_view(out@);
                    let rv1 = results_view(prev);
                    assert forall|j: int| 0 <= j < i + 1 implies (#[trigger] rv2[j]) == (
                    match spec_classify(cv[j], value@, book@, network@) {
                        Ok(t) => Ok::<TradeV, TradeErrV>(t),
                        Err(e) => Err::<TradeV, TradeErrV>(TradeErrV::Classify(e)),
                    }) by {
                        if j < i {
                            assert(rv1[j] == (match spec_classify(cv[j], value@, book@, network@) {
                                Ok(t) => Ok::<TradeV, TradeErrV>(t),
                                Err(e) => Err::<TradeV, TradeErrV>(TradeErrV::Classify(e)),
                            }));
                            assert(out@[j] == prev[j]);
                        } else {
                            assert(out@[j] == out@.last());
                        }
                    }
                }
                i += 1;
            }
            proof {
                assert(results_view(out@) =~= spec_pipeline(
                    reg@,
                    book@,
                    data@,
                    value@,
                    network@,
                ));
            }
            out
        },
    }
}

} // verus!
