use vstd::prelude::*;
use crate::abi::AbiVal;
use crate::decoder::{
    CallV, DecErrV, MAX_CALL_DEPTH, spec_decode_call, spec_expand_fields, spec_expand_one,
    spec_expand_elems, spec_try_nested,
};
use crate::registry::{SigV, resolve_sig};

verus! {

broadcast use vstd::seq::group_seq_axioms, vstd::seq_lib::group_seq_lib_default;

/// Call data shorter than the four-byte selector always decodes to
/// Truncated, at any depth.
pub proof fn lemma_short_data_truncated(rv: Seq<(Seq<u8>, SigV)>, data: Seq<u8>)
    requires
        data.len() < 4,
    ensures
        spec_decode_call(rv, data, 0) == Err::<Seq<CallV>, DecErrV>(DecErrV::Truncated),
{
}

/// Call data whose selector matches no registered signature always
/// decodes to UnknownSelector carrying that selector.
pub proof fn lemma_unknown_selector(rv: Seq<(Seq<u8>, SigV)>, data: Seq<u8>)
    requires
        data.len() >= 4,
        resolve_sig(rv, data.subrange(0, 4)) is None,
    ensures
        spec_decode_call(rv, data, 0) == Err::<Seq<CallV>, DecErrV>(
            DecErrV::UnknownSelector(data.subrange(0, 4)),
        ),
{
}

/// A successfully decoded sequence opens with the call itself, at the
/// depth it was decoded at.
pub proof fn lemma_first_call_depth(rv: Seq<(Seq<u8>, SigV)>, data: Seq<u8>, depth: nat)
    requires
        spec_decode_call(rv, data, depth) is Ok,
    ensures
        spec_decode_call(rv, data, depth) matches Ok(cs) ==> cs.len() >= 1 && cs[0].depth == depth,
{
}

/// A resolvable nested call exactly at the defensive limit yields
/// TooDeep naming that limit; below the limit, recursion proceeds.
pub proof fn lemma_depth_limit(rv: Seq<(Seq<u8>, SigV)>, b: Seq<u8>, depth: nat)
    requires
        b.len() >= 4,
        resolve_sig(rv, b.subrange(0, 4)) is Some,
    ensures
        depth + 1 >= MAX_CALL_DEPTH ==> spec_try_nested(rv, b, depth) == Err::<
            Seq<CallV>,
            DecErrV,
        >(DecErrV::TooDeep { depth: depth + 1 }),
        depth + 1 < MAX_CALL_DEPTH ==> spec_try_nested(rv, b, depth) == spec_decode_call(
            rv,
            b,
            depth + 1,
        ),
{
}

/// A byte field whose prefix does not resolve is left opaque: it adds no
/// calls and no error.
pub proof fn lemma_opaque_bytes(rv: Seq<(Seq<u8>, SigV)>, b: Seq<u8>, depth: nat)
    requires
        b.len() < 4 || resolve_sig(rv, b.subrange(0, 4)) is None,
    ensures
        spec_try_nested(rv, b, depth) == Ok::<Seq<CallV>, DecErrV>(Seq::empty()),
{
}

/// Call data carrying two nested sub-calls in one array-of-bytes field
/// decodes to exactly three calls: the parent, then the children in
/// array order, each one level deeper.
pub proof fn lemma_multicall_order(
    rv: Seq<(Seq<u8>, SigV)>,
    data: Seq<u8>,
    b1: Seq<u8>,
    b2: Seq<u8>,
    c1: CallV,
    c2: CallV,
)
    requires
        data.len() >= 4,
        resolve_sig(rv, data.subrange(0, 4)) is Some,
        crate::abi::dec_args(resolve_sig(rv, data.subrange(0, 4)).unwrap().ptypes, data, 4)
            == Some(seq![AbiVal::Array(seq![AbiVal::Bytes(b1), AbiVal::Bytes(b2)])]),
        spec_try_nested(rv, b1, 0) == Ok::<Seq<CallV>, DecErrV>(seq![c1]),
        spec_try_nested(rv, b2, 0) == Ok::<Seq<CallV>, DecErrV>(seq![c2]),
    ensures
        spec_decode_call(rv, data, 0) matches Ok(cs) && cs.len() == 3 && cs[0].depth == 0 && cs[1]
            == c1 && cs[2] == c2 && cs[0].name == resolve_sig(rv, data.subrange(0, 4)).unwrap().name,
{
    let sig = resolve_sig(rv, data.subrange(0, 4)).unwrap();
    let vals = seq![AbiVal::Array(seq![AbiVal::Bytes(b1), AbiVal::Bytes(b2)])];
    let elems = seq![AbiVal::Bytes(b1), AbiVal::Bytes(b2)];
    assert(elems.drop_first() =~= seq![AbiVal::Bytes(b2)]);
    assert(elems.drop_first().drop_first() =~= Seq::<AbiVal>::empty());
    assert(spec_expand_elems(rv, elems.drop_first().drop_first(), 0) == Ok::<
        Seq<CallV>,
        DecErrV,
    >(Seq::empty()));
    assert(spec_expand_elems(rv, elems.drop_first(), 0) == Ok::<Seq<CallV>, DecErrV>(
        seq![c2] + Seq::empty(),
    ));
    assert(seq![c2] + Seq::<CallV>::empty() =~= seq![c2]);
    assert(spec_expand_elems(rv, elems, 0) == Ok::<Seq<CallV>, DecErrV>(seq![c1] + seq![c2]));
    assert(spec_expand_one(rv, vals[0], 0) == Ok::<Seq<CallV>, DecErrV>(seq![c1] + seq![c2]));
    assert(vals.drop_first() =~= Seq::<AbiVal>::empty());
    assert(spec_expand_fields(rv, vals.drop_first(), 0) == Ok::<Seq<CallV>, DecErrV>(Seq::empty()));
    assert(spec_expand_fields(rv, vals, 0) == Ok::<Seq<CallV>, DecErrV>((seq![c1] + seq![c2])
        + Seq::empty()));
    let call = CallV {
        name: sig.name,
        fields: crate::decoder::zip_fields(sig.pnames, vals),
        depth: 0,
    };
    assert(spec_decode_call(rv, data, 0) == Ok::<Seq<CallV>, DecErrV>(seq![call] + ((seq![c1]
        + seq![c2]) + Seq::empty())));
    assert(seq![call] + ((seq![c1] + seq![c2]) + Seq::empty()) =~= seq![call, c1, c2]);
}

proof fn lemma_err_kind_decode(rv: Seq<(Seq<u8>, SigV)>, data: Seq<u8>, depth: nat)
    requires
        data.len() >= 4,
        resolve_sig(rv, data.subrange(0, 4)) is Some,
    ensures
        spec_decode_call(rv, data, depth) matches Err(e) ==> (e is Malformed || e is TooDeep),
    decreases MAX_CALL_DEPTH - depth, 4int, 0int,
{
    let sig = resolve_sig(rv, data.subrange(0, 4)).unwrap();
    match crate::abi::dec_args(sig.ptypes, data, 4) {
        None => {},
        Some(vals) => {
            lemma_err_kind_fields(rv, vals, depth);
        },
    }
}

proof fn lemma_err_kind_fields(rv: Seq<(Seq<u8>, SigV)>, vals: Seq<AbiVal>, depth: nat)
    ensures
        spec_expand_fields(rv, vals, depth) matches Err(e) ==> (e is Malformed || e is TooDeep),
    decreases MAX_CALL_DEPTH - depth, 3int, vals.len(),
{
    if vals.len() > 0 {
        lemma_err_kind_one(rv, vals[0], depth);
        lemma_err_kind_fields(rv, vals.drop_first(), depth);
    }
}

proof fn lemma_err_kind_one(rv: Seq<(Seq<u8>, SigV)>, v: AbiVal, depth: nat)
    ensures
        spec_expand_one(rv, v, depth) matches Err(e) ==> (e is Malformed || e is TooDeep),
    decreases MAX_CALL_DEPTH - depth, 2int, 0int,
{
    match v {
        AbiVal::Bytes(b) => {
            lemma_err_kind_nested(rv, b, depth);
        },
        AbiVal::Array(elems) => {
            lemma_err_kind_elems(rv, elems, depth);
        },
        _ => {},
    }
}

proof fn lemma_err_kind_elems(rv: Seq<(Seq<u8>, SigV)>, elems: Seq<AbiVal>, depth: nat)
    ensures
        spec_expand_elems(rv, elems, depth) matches Err(e) ==> (e is Malformed || e is TooDeep),
    decreases MAX_CALL_DEPTH - depth, 1int, elems.len(),
{
    if elems.len() > 0 {
        match elems[0] {
            AbiVal::Bytes(b) => {
                lemma_err_kind_nested(rv, b, depth);
            },
            _ => {},
        }
        lemma_err_kind_elems(rv, elems.drop_first(), depth);
    }
}

proof fn lemma_err_kind_nested(rv: Seq<(Seq<u8>, SigV)>, b: Seq<u8>, depth: nat)
    ensures
        spec_try_nested(rv, b, depth) matches Err(e) ==> (e is Malformed || e is TooDeep),
    decreases MAX_CALL_DEPTH - depth, 0int, 0int,
{
    if b.len() >= 4 && resolve_sig(rv, b.subrange(0, 4)) is Some {
        if depth + 1 < MAX_CALL_DEPTH {
            lemma_err_kind_decode(rv, b, depth + 1);
        }
    }
}

/// Truncated comes when and only when the data cannot hold a selector:
/// no nested decode ever reports it.
pub proof fn lemma_truncated_iff(rv: Seq<(Seq<u8>, SigV)>, data: Seq<u8>)
    ensures
        (spec_decode_call(rv, data, 0) == Err::<Seq<CallV>, DecErrV>(DecErrV::Truncated)) <==> data.len() < 4,
{
    if data.len() >= 4 {
        if resolve_sig(rv, data.subrange(0, 4)) is Some {
            lemma_err_kind_decode(rv, data, 0);
        }
    }
}

/// UnknownSelector comes when and only when the outer selector matches
/// no registered signature: no nested decode ever reports it.
pub proof fn lemma_unknown_selector_iff(rv: Seq<(Seq<u8>, SigV)>, data: Seq<u8>)
    ensures
        (spec_decode_call(rv, data, 0) matches Err(e) && e is UnknownSelector) <==> (data.len()
            >= 4 && resolve_sig(rv, data.subrange(0, 4)) is None),
{
    if data.len() >= 4 {
        if resolve_sig(rv, data.subrange(0, 4)) is Some {
            lemma_err_kind_decode(rv, data, 0);
        }
    }
}

} // verus!
