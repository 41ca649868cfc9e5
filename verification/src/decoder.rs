use vstd::prelude::*;
use crate::abi::{
    ParamType, DecodedValue, AbiVal, val_view, vals_view, lemma_vals_view_index, dec_args,
    dec_tlist,
};
use crate::abi_exec::{copy_range, decode_args};
use crate::registry::{FunctionRegistry, SigV, resolve_sig};

verus! {

broadcast use vstd::seq::group_seq_axioms, vstd::seq_lib::group_seq_lib_default, vstd::std_specs::vec::group_vec_axioms;

/// The defensive bound on multicall nesting.
pub const MAX_CALL_DEPTH: usize = 16;

/// One resolved and decoded call: the function's name, its arguments in
/// parameter order, and how deeply it was nested (0 for the outer call).
pub struct DecodedCall {
    pub name: String,
    pub fields: Vec<(String, DecodedValue)>,
    pub depth: usize,
}

/// The mathematical model of a decoded call.
pub struct CallV {
    pub name: Seq<char>,
    pub fields: Seq<(Seq<char>, AbiVal)>,
    pub depth: nat,
}

pub open spec fn fields_view(s: Seq<(String, DecodedValue)>) -> Seq<(Seq<char>, AbiVal)> {
    Seq::new(s.len(), |i: int| (s[i].0@, val_view(s[i].1)))
}

/// The argument values of a field list, in order.
pub open spec fn vals_of_fields(s: Seq<(String, DecodedValue)>) -> Seq<AbiVal> {
    Seq::new(s.len(), |i: int| val_view(s[i].1))
}

impl View for DecodedCall {
    type V = CallV;

    open spec fn view(&self) -> CallV {
        CallV { name: self.name@, fields: fields_view(self.fields@), depth: self.depth as nat }
    }
}

pub open spec fn calls_view(s: Seq<DecodedCall>) -> Seq<CallV> {
    Seq::new(s.len(), |i: int| s[i]@)
}

/// Why a call could not be decoded.
#[derive(Debug)]
pub enum DecodeError {
    Truncated,
    UnknownSelector(Vec<u8>),
    Malformed { depth: usize, selector: Vec<u8> },
    TooDeep { depth: usize },
}

/// The mathematical model of a decode failure.
pub enum DecErrV {
    Truncated,
    UnknownSelector(Seq<u8>),
    Malformed { depth: nat, selector: Seq<u8> },
    TooDeep { depth: nat },
}

impl View for DecodeError {
    type V = DecErrV;

    open spec fn view(&self) -> DecErrV {
        match self {
            DecodeError::Truncated => DecErrV::Truncated,
            DecodeError::UnknownSelector(s) => DecErrV::UnknownSelector(s@),
            DecodeError::Malformed { depth, selector } => DecErrV::Malformed {
                depth: *depth as nat,
                selector: selector@,
            },
            DecodeError::TooDeep { depth } => DecErrV::TooDeep { depth: *depth as nat },
        }
    }
}

pub open spec fn zip_fields(pnames: Seq<Seq<char>>, vals: Seq<AbiVal>) -> Seq<(Seq<char>, AbiVal)> {
    Seq::new(vals.len(), |i: int| (pnames[i], vals[i]))
}

// ---------------------------------------------------------------------------
// The decoding rule, stated over the registry's view: resolve the selector,
// decode the argument block, then walk the fields in order, expanding every
// byte run whose own four-byte prefix resolves, depth-first, parents first.
// ---------------------------------------------------------------------------

pub open spec fn spec_decode_call(
    rv: Seq<(Seq<u8>, SigV)>,
    data: Seq<u8>,
    depth: nat,
) -> Result<Seq<CallV>, DecErrV>
    decreases MAX_CALL_DEPTH - depth, 4int, 0int,
{
    if data.len() < 4 {
        Err(DecErrV::Truncated)
    } else {
        let sel = data.subrange(0, 4);
        match resolve_sig(rv, sel) {
            None => Err(DecErrV::UnknownSelector(sel)),
            Some(sig) => match dec_args(sig.ptypes, data, 4) {
                None => Err(DecErrV::Malformed { depth, selector: sel }),
                Some(vals) => {
                    let call = CallV { name: sig.name, fields: zip_fields(sig.pnames, vals), depth };
                    match spec_expand_fields(rv, vals, depth) {
                        Ok(subs) => Ok(seq![call] + subs),
                        Err(e) => Err(e),
                    }
                },
            },
        }
    }
}

pub open spec fn spec_expand_fields(
    rv: Seq<(Seq<u8>, SigV)>,
    vals: Seq<AbiVal>,
    depth: nat,
) -> Result<Seq<CallV>, DecErrV>
    decreases MAX_CALL_DEPTH - depth, 3int, vals.len(),
{
    if vals.len() == 0 {
        Ok(Seq::empty())
    } else {
        match spec_expand_one(rv, vals[0], depth) {
            Err(e) => Err(e),
            Ok(s0) => match spec_expand_fields(rv, vals.drop_first(), depth) {
                Err(e) => Err(e),
                Ok(rest) => Ok(s0 + rest),
            },
        }
    }
}

pub open spec fn spec_expand_one(
    rv: Seq<(Seq<u8>, SigV)>,
    v: AbiVal,
    depth: nat,
) -> Result<Seq<CallV>, DecErrV>
    decreases MAX_CALL_DEPTH - depth, 2int, 0int,
{
    match v {
        AbiVal::Bytes(b) => spec_try_nested(rv, b, depth),
        AbiVal::Array(elems) => spec_expand_elems(rv, elems, depth),
        _ => Ok(Seq::empty()),
    }
}

pub open spec fn spec_expand_elems(
    rv: Seq<(Seq<u8>, SigV)>,
    elems: Seq<AbiVal>,
    depth: nat,
) -> Result<Seq<CallV>, DecErrV>
    decreases MAX_CALL_DEPTH - depth, 1int, elems.len(),
{
    if elems.len() == 0 {
        Ok(Seq::empty())
    } else {
        let first = match elems[0] {
            AbiVal::Bytes(b) => spec_try_nested(rv, b, depth),
            _ => Ok(Seq::empty()),
        };
        match first {
            Err(e) => Err(e),
            Ok(s0) => match spec_expand_elems(rv, elems.drop_first(), depth) {
                Err(e) => Err(e),
                Ok(rest) => Ok(s0 + rest),
            },
        }
    }
}

pub open spec fn spec_try_nested(
    rv: Seq<(Seq<u8>, SigV)>,
    b: Seq<u8>,
    depth: nat,
) -> Result<Seq<CallV>, DecErrV>
    decreases MAX_CALL_DEPTH - depth, 0int, 0int,
{
    if b.len() >= 4 && resolve_sig(rv, b.subrange(0, 4)) is Some {
        if depth + 1 >= MAX_CALL_DEPTH {
            Err(DecErrV::TooDeep { depth: depth + 1 })
        } else {
            spec_decode_call(rv, b, depth + 1)
        }
    } else {
        Ok(Seq::empty())
    }
}

pub proof fn lemma_dec_tlist_len(ts: Seq<ParamType>, s: Seq<u8>, base: nat, hp: nat)
    ensures
        dec_tlist(ts, s, base, hp) matches Some(vs) ==> vs.len() == ts.len(),
    decreases ts.len(),
{
    if ts.len() > 0 {
        lemma_dec_tlist_len(ts.drop_first(), s, base, hp + crate::abi::head_size(ts[0]));
    }
}

/// Expands one byte run: decodes it as a nested call when its four-byte
/// prefix resolves, and yields nothing otherwise.
fn try_nested_x(b: &Vec<u8>, reg: &FunctionRegistry, depth: usize) -> (r: Result<
    Vec<DecodedCall>,
    DecodeError,
>)
    requires
        reg.wf(),
        depth < MAX_CALL_DEPTH,
    ensures
        match r {
            Ok(cs) => spec_try_nested(reg@, b@, depth as nat) == Ok::<
                Seq<CallV>,
                DecErrV,
            >(calls_view(cs@)),
            Err(e) => spec_try_nested(reg@, b@, depth as nat) == Err::<Seq<CallV>, DecErrV>(e@),
        },
    decreases MAX_CALL_DEPTH - depth, 0int, 0int,
{
    if b.len() < 4 {
        let r: Vec<DecodedCall> = Vec::new();
        proof {
            assert(calls_view(r@) =~= Seq::<CallV>::empty());
        }
        return Ok(r);
    }
    let sel = copy_range(b, 0, 4);
    match reg.resolve_index(&sel) {
        None => {
            let r: Vec<DecodedCall> = Vec::new();
            proof {
                assert(calls_view(r@) =~= Seq::<CallV>::empty());
            }
            Ok(r)
        },
        Some(_) => {
            if depth + 1 >= MAX_CALL_DEPTH {
                Err(DecodeError::TooDeep { depth: depth + 1 })
            } else {
                decode_at(b, reg, depth + 1)
            }
        },
    }
}

/// Expands the byte runs of an array field element by element, in order.
fn expand_elems_x(elems: &Vec<DecodedValue>, reg: &FunctionRegistry, depth: usize) -> (r: Result<
    Vec<DecodedCall>,
    DecodeError,
>)
    requires
        reg.wf(),
        depth < MAX_CALL_DEPTH,
    ensures
        match r {
            Ok(cs) => spec_expand_elems(reg@, vals_view(elems@), depth as nat) == Ok::<
                Seq<CallV>,
                DecErrV,
            >(calls_view(cs@)),
            Err(e) => spec_expand_elems(reg@, vals_view(elems@), depth as nat) == Err::<
                Seq<CallV>,
                DecErrV,
            >(e@),
        },
    decreases MAX_CALL_DEPTH - depth, 1int, 0int,
{
    let ghost ev = vals_view(elems@);
    proof {
        lemma_vals_view_index(elems@);
    }
    let mut out: Vec<DecodedCall> = Vec::new();
    let mut i: usize = 0;
    proof {
        assert(calls_view(out@) =~= Seq::<CallV>::empty());
        assert(ev.skip(0) =~= ev);
    }
    while i < elems.len()
        invariant
            reg.wf(),
            depth < MAX_CALL_DEPTH,
            0 <= i <= elems@.len(),
            ev == vals_view(elems@),
            ev.len() == elems@.len(),
            forall|j: int| 0 <= j < elems@.len() ==> ev[j] == val_view(elems@[j]),
            ({
                let rem = spec_expand_elems(reg@, ev.skip(i as int), depth as nat);
                &&& (rem matches Ok(rest) ==> spec_expand_elems(reg@, ev, depth as nat) == Ok::<
                    Seq<CallV>,
                    DecErrV,
                >(calls_view(out@) + rest))
                &&& (rem matches Err(e) ==> spec_expand_elems(reg@, ev, depth as nat) == Err::<
                    Seq<CallV>,
                    DecErrV,
                >(e))
            }),
        decreases elems@.len() - i,
    {
        proof {
            assert(ev.skip(i as int)[0] == ev[i as int]);
            assert(ev.skip(i as int).drop_first() =~= ev.skip(i + 1));
        }
        match &elems[i] {
            DecodedValue::Bytes(b) => {
                match try_nested_x(b, reg, depth) {
                    Err(e) => {
                        return Err(e);
                    },
                    Ok(cs) => {
                        let ghost prev = out@;
                        let mut cs = cs;
                        let ghost csv = cs@;
                        let ghost mut k: int = 0;
                        while cs.len() > 0
                            invariant
                                0 <= k,
                                k + cs@.len() == csv.len(),
                                cs@ =~= csv.skip(k),
                                out@ =~= prev + csv.take(k),
                            decreases cs@.len(),
                        {
                            let c = cs.remove(0);
                            out.push(c);
                            proof {
                                k = k + 1;
                                assert(csv.take(k) =~= csv.take(k - 1).push(csv[k - 1]));
                            }
                        }
                        proof {
                            assert(csv.take(csv.len() as int) =~= csv);
                            assert(out@ =~= prev + csv);
                            assert(calls_view(out@) =~= calls_view(prev) + calls_view(csv));
                            assert forall|r2: Seq<CallV>| ((calls_view(prev) + calls_view(csv))
                                + r2) == (calls_view(prev) + (calls_view(csv) + r2)) by {
                                vstd::seq_lib::lemma_concat_associative(
                                    calls_view(prev),
                                    calls_view(csv),
                                    r2,
                                );
                            }
                        }
                    },
                }
            },
            _ => {
                proof {
                    assert(calls_view(out@) + Seq::<CallV>::empty() =~= calls_view(out@));
                }
            },
        }
        i += 1;
    }
    proof {
        assert(ev.skip(ev.len() as int) =~= Seq::<AbiVal>::empty());
    }
    Ok(out)
}

/// Walks a decoded call's fields in order, expanding byte runs and arrays
/// of byte runs into nested calls.
fn expand_fields_x(
    fields: &Vec<(String, DecodedValue)>,
    reg: &FunctionRegistry,
    depth: usize,
) -> (r: Result<Vec<DecodedCall>, DecodeError>)
    requires
        reg.wf(),
        depth < MAX_CALL_DEPTH,
    ensures
        match r {
            Ok(cs) => spec_expand_fields(reg@, vals_of_fields(fields@), depth as nat) == Ok::<
                Seq<CallV>,
                DecErrV,
            >(calls_view(cs@)),
            Err(e) => spec_expand_fields(reg@, vals_of_fields(fields@), depth as nat) == Err::<
                Seq<CallV>,
                DecErrV,
            >(e@),
        },
    decreases MAX_CALL_DEPTH - depth, 3int, 0int,
{
    let ghost fv = vals_of_fields(fields@);
    let mut out: Vec<DecodedCall> = Vec::new();
    let mut i: usize = 0;
    proof {
        assert(calls_view(out@) =~= Seq::<CallV>::empty());
        assert(fv.skip(0) =~= fv);
    }
    while i < fields.len()
        invariant
            reg.wf(),
            depth < MAX_CALL_DEPTH,
            0 <= i <= fields@.len(),
            fv == vals_of_fields(fields@),
            ({
                let rem = spec_expand_fields(reg@, fv.skip(i as int), depth as nat);
                &&& (rem matches Ok(rest) ==> spec_expand_fields(reg@, fv, depth as nat) == Ok::<
                    Seq<CallV>,
                    DecErrV,
                >(calls_view(out@) + rest))
                &&& (rem matches Err(e) ==> spec_expand_fields(reg@, fv, depth as nat) == Err::<
                    Seq<CallV>,
                    DecErrV,
                >(e))
            }),
        decreases fields@.len() - i,
    {
        proof {
            assert(fv.skip(i as int)[0] == fv[i as int]);
            assert(fv.skip(i as int).drop_first() =~= fv.skip(i + 1));
            assert(fv[i as int] == val_view(fields@[i as int].1));
        }
        let ghost sub_spec = spec_expand_one(reg@, fv[i as int], depth as nat);
        let sub: Result<Vec<DecodedCall>, DecodeError> = match &fields[i].1 {
            DecodedValue::Bytes(b) => try_nested_x(b, reg, depth),
            DecodedValue::Array(elems) => {
                proof {
                    lemma_vals_view_index(elems@);
                }
                expand_elems_x(elems, reg, depth)
            },
            _ => {
                let r: Vec<DecodedCall> = Vec::new();
                proof {
                    assert(calls_view(r@) =~= Seq::<CallV>::empty());
                }
                Ok(r)
            },
        };
        match sub {
            Err(e) => {
                return Err(e);
            },
            Ok(cs) => {
                let ghost prev = out@;
                let mut cs = cs;
                let ghost csv = cs@;
                let ghost mut k: int = 0;
                while cs.len() > 0
                    invariant
                        0 <= k,
                        k + cs@.len() == csv.len(),
                        cs@ =~= csv.skip(k),
                        out@ =~= prev + csv.take(k),
                    decreases cs@.len(),
                {
                    let c = cs.remove(0);
                    out.push(c);
                    proof {
                        k = k + 1;
                        assert(csv.take(k) =~= csv.take(k - 1).push(csv[k - 1]));
                    }
                }
                proof {
                    assert(csv.take(csv.len() as int) =~= csv);
                    assert(out@ =~= prev + csv);
                    assert(calls_view(out@) =~= calls_view(prev) + calls_view(csv));
                    assert forall|r2: Seq<CallV>| ((calls_view(prev) + calls_view(csv)) + r2) == (
                    calls_view(prev) + (calls_view(csv) + r2)) by {
                        vstd::seq_lib::lemma_concat_associative(
                            calls_view(prev),
                            calls_view(csv),
                            r2,
                        );
                    }
                }
            },
        }
        i += 1;
    }
    proof {
        assert(fv.skip(fv.len() as int) =~= Seq::<AbiVal>::empty());
    }
    Ok(out)
}

/// Decodes one call at the given nesting depth, then its nested calls.
fn decode_at(data: &Vec<u8>, reg: &FunctionRegistry, depth: usize) -> (r: Result<
    Vec<DecodedCall>,
    DecodeError,
>)
    requires
        reg.wf(),
        depth < MAX_CALL_DEPTH,
    ensures
        match r {
            Ok(cs) => spec_decode_call(reg@, data@, depth as nat) == Ok::<
                Seq<CallV>,
                DecErrV,
            >(calls_view(cs@)),
            Err(e) => spec_decode_call(reg@, data@, depth as nat) == Err::<Seq<CallV>, DecErrV>(
                e@,
            ),
        },
    decreases MAX_CALL_DEPTH - depth, 4int, 0int,
{
    if data.len() < 4 {
        return Err(DecodeError::Truncated);
    }
    let sel = copy_range(data, 0, 4);
    let idx_opt = reg.resolve_index(&sel);
    match idx_opt {
        None => Err(DecodeError::UnknownSelector(sel)),
        Some(idx) => {
            let tys = reg.types_at(idx);
            let ghost sigv = reg@[idx as int].1;
            match decode_args(tys, data, 4) {
                None => Err(DecodeError::Malformed { depth, selector: sel }),
                Some(vals) => {
                    proof {
                        lemma_dec_tlist_len(sigv.ptypes, data@, 4, 4);
                    }
                    let ghost valsv = vals_view(vals@);
                    proof {
                        lemma_vals_view_index(vals@);
                    }
                    let pn = reg.pnames_at(idx);
                    let mut vals = vals;
                    let mut fields: Vec<(String, DecodedValue)> = Vec::new();
                    let mut i: usize = 0;
                    let n: usize = pn.len();
                    proof {
                        reg.wf_entry(idx as int);
                        assert(sigv.pnames.len() == sigv.ptypes.len());
                        assert(pn@.map_values(|s: String| s@).len() == sigv.pnames.len());
                        assert(valsv.len() == sigv.ptypes.len());
                        assert(n == sigv.pnames.len());
                        assert(vals@.len() == valsv.len());
                    }
                    while i < n
                        invariant
                            0 <= i <= n,
                            n == pn@.len(),
                            valsv.len() == n,
                            i + vals@.len() == n,
                            fields@.len() == i,
                            forall|j: int| 0 <= j < vals@.len() ==> val_view(#[trigger] vals@[j])
                                == valsv[i + j],
                            forall|j: int| 0 <= j < i ==> (#[trigger] fields@[j]).0@ == pn@[j]@
                                && val_view(fields@[j].1) == valsv[j],
                        decreases n - i,
                    {
                        let nm: String = pn[i].clone();
                        let v: DecodedValue = vals.remove(0);
                        fields.push((nm, v));
                        i += 1;
                    }
                    let name = reg.name_at(idx).clone();
                    let call = DecodedCall { name, fields, depth };
                    proof {
                        assert(vals_of_fields(call.fields@) =~= valsv);
                        assert(fields_view(call.fields@) =~= zip_fields(sigv.pnames, valsv));
                    }
                    match expand_fields_x(&call.fields, reg, depth) {
                        Err(e) => Err(e),
                        Ok(subs) => {
                            let ghost callv = call@;
                            let mut out: Vec<DecodedCall> = Vec::new();
                            out.push(call);
                            let ghost subsv = subs@;
                            let mut subs = subs;
                            let ghost mut k: int = 0;
                            proof {
                                assert(out@ =~= seq![out@[0]] + subsv.take(0));
                            }
                            while subs.len() > 0
                                invariant
                                    0 <= k,
                                    k + subs@.len() == subsv.len(),
                                    subs@ =~= subsv.skip(k),
                                    out@.len() == k + 1,
                                    out@ =~= seq![out@[0]] + subsv.take(k),
                                    out@[0]@ == callv,
                                decreases subs@.len(),
                            {
                                let c = subs.remove(0);
                                out.push(c);
                                proof {
                                    k = k + 1;
                                    assert(subsv.take(k) =~= subsv.take(k - 1).push(
                                        subsv[k - 1],
                                    ));
                                }
                            }
                            proof {
                                assert(subsv.take(subsv.len() as int) =~= subsv);
                                assert(calls_view(out@) =~= seq![callv] + calls_view(subsv));
                            }
                            Ok(out)
                        },
                    }
                },
            }
        },
    }
}

/// Decodes raw call data against the registry: the outer call first, then
/// every nested call it carries, parents before children.
pub fn decode(data: &Vec<u8>, reg: &FunctionRegistry) -> (r: Result<Vec<DecodedCall>, DecodeError>)
    requires
        reg.wf(),
    ensures
        match r {
            Ok(cs) => spec_decode_call(reg@, data@, 0) == Ok::<Seq<CallV>, DecErrV>(
                calls_view(cs@),
            ),
            Err(e) => spec_decode_call(reg@, data@, 0) == Err::<Seq<CallV>, DecErrV>(e@),
        },
{
    decode_at(data, reg, 0)
}

} // verus!
