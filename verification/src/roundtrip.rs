use vstd::prelude::*;
use crate::abi::{
    ParamType, AbiVal, fits, fits_ulist, fits_tlist, wf_ty, wf_tys, is_dynamic, any_dynamic,
    dec_ulist, dec_value,
    static_size, total_static, head_size, zeros, wordk, word32, enc, enc_uheads, enc_utails, enc_tblock,
    enc_theads, enc_ttails, dec_static, dec_slist, dec_stlist, dec_tlist, dec_args, dec_byte_run,
    ty_size, tys_size, lemma_tys_size_elem, heads_size,
};
use crate::decoder::{
    CallV, DecErrV, spec_decode_call, spec_expand_fields, spec_expand_one, zip_fields,
};
use crate::registry::{SigV, resolve_sig};
use crate::numeric::{be_nat, pow256};

verus! {

broadcast use vstd::seq::group_seq_axioms, vstd::seq_lib::group_seq_lib_default;

pub proof fn lemma_wordk_len(n: nat, k: nat)
    ensures
        wordk(n, k).len() == k,
    decreases k,
{
    if k > 0 {
        lemma_wordk_len(n / 256, (k - 1) as nat);
    }
}

pub proof fn lemma_wordk_zero(k: nat)
    ensures
        wordk(0, k).len() == k,
        forall|i: int| 0 <= i < k ==> wordk(0, k)[i] == 0u8,
    decreases k,
{
    if k > 0 {
        lemma_wordk_zero((k - 1) as nat);
    }
}

pub proof fn lemma_ty_size_pos(t: ParamType)
    ensures
        ty_size(t) >= 1,
{
}

/// The in-place encoding of a static value is exactly its static size.
pub proof fn lemma_enc_static_len(t: ParamType, v: AbiVal)
    requires
        fits(v, t),
        wf_ty(t),
        !is_dynamic(t),
    ensures
        enc(t, v).len() == static_size(t),
    decreases ty_size(t), 1int, 0int,
{
    match (t, v) {
        (ParamType::Boolean, AbiVal::Boolean(x)) => {
            lemma_wordk_len(
                if x {
                    1nat
                } else {
                    0nat
                },
                32,
            );
        },
        (ParamType::FixedArray(t2, n), AbiVal::FixedArray(vs)) => {
            lemma_utails_len(*t2, vs);
        },
        (ParamType::Tuple(ts), AbiVal::Tuple(vs)) => {
            lemma_theads_static_len(ts@, vs, heads_size(ts@));
            lemma_ttails_static_empty(ts@, vs);
        },
        _ => {},
    }
}

pub proof fn lemma_utails_len(t2: ParamType, vs: Seq<AbiVal>)
    requires
        fits_ulist(vs, t2),
        wf_ty(t2),
        !is_dynamic(t2),
    ensures
        enc_utails(t2, vs).len() == vs.len() * static_size(t2),
    decreases ty_size(t2), 2int, vs.len(),
{
    let ss = static_size(t2);
    if vs.len() == 0 {
        assert(0int * ss == 0) by (nonlinear_arith);
    } else {
        lemma_enc_static_len(t2, vs[0]);
        lemma_utails_len(t2, vs.drop_first());
        assert(vs.len() * ss == ss + (vs.len() - 1) * ss) by (nonlinear_arith);
    }
}

pub proof fn lemma_theads_static_len(ts: Seq<ParamType>, vs: Seq<AbiVal>, off: nat)
    requires
        fits_tlist(vs, ts),
        wf_tys(ts),
        !any_dynamic(ts),
    ensures
        enc_theads(ts, vs, off).len() == total_static(ts),
    decreases tys_size(ts), 2int, 0int,
{
    if ts.len() > 0 {
        lemma_tys_size_elem(ts, 0);
        lemma_enc_static_len(ts[0], vs[0]);
        lemma_ty_size_pos(ts[0]);
        lemma_theads_static_len(ts.drop_first(), vs.drop_first(), off);
    }
}

pub proof fn lemma_ttails_static_empty(ts: Seq<ParamType>, vs: Seq<AbiVal>)
    requires
        !any_dynamic(ts),
    ensures
        enc_ttails(ts, vs) == Seq::<u8>::empty(),
    decreases ts,
{
    if ts.len() == 0 || vs.len() == 0 {
        assert(enc_ttails(ts, vs) =~= Seq::<u8>::empty());
    } else {
        lemma_ttails_static_empty(ts.drop_first(), vs.drop_first());
    }
}

/// Decoding a static value in place recovers exactly the encoded value.
pub proof fn lemma_rt_static(t: ParamType, v: AbiVal, s: Seq<u8>, p: nat)
    requires
        fits(v, t),
        wf_ty(t),
        !is_dynamic(t),
        p + static_size(t) <= s.len(),
        s.subrange(p as int, (p + static_size(t)) as int) == enc(t, v),
    ensures
        dec_static(t, s, p) == Some(v),
    decreases ty_size(t), 3int, 0int,
{
    match (t, v) {
        (ParamType::Address, AbiVal::Address(b)) => {
            assert(s.subrange(p as int, (p + 32) as int) == zeros(12) + b);
            assert forall|i: int| 0 <= i < 20 implies s.subrange(
                (p + 12) as int,
                (p + 32) as int,
            )[i] == b[i] by {
                assert(s.subrange(p as int, (p + 32) as int)[12 + i] == (zeros(12) + b)[12 + i]);
            }
            assert(s.subrange((p + 12) as int, (p + 32) as int) =~= b);
        },
        (ParamType::Boolean, AbiVal::Boolean(x)) => {
            if x {
                lemma_wordk_len(1, 32);
                assert(wordk(1nat, 32).last() == 1u8);
                assert(s[(p + 31) as int] == enc(t, v)[31]);
                assert(enc(t, v)[31] == 1u8);
            } else {
                lemma_wordk_zero(32);
                assert(s[(p + 31) as int] == enc(t, v)[31]);
                assert(enc(t, v)[31] == 0u8);
            }
        },
        (ParamType::Uint(_), AbiVal::Uint(w)) => {
            assert(s.subrange(p as int, (p + 32) as int) =~= w);
        },
        (ParamType::Int(_), AbiVal::Int(w)) => {
            assert(s.subrange(p as int, (p + 32) as int) =~= w);
        },
        (ParamType::FixedBytes(n), AbiVal::FixedBytes(b)) => {
            assert(s.subrange(p as int, (p + n) as int) =~= b);
        },
        (ParamType::FixedArray(t2, n), AbiVal::FixedArray(vs)) => {
            assert((n as int) * static_size(*t2) == vs.len() * static_size(*t2))
                by (nonlinear_arith)
                requires
                    vs.len() == n as int,
            ;
            lemma_rt_slist(*t2, vs, s, p);
        },
        (ParamType::Tuple(ts), AbiVal::Tuple(vs)) => {
            lemma_ttails_static_empty(ts@, vs);
            assert(enc(t, v) =~= enc_theads(ts@, vs, heads_size(ts@)));
            lemma_rt_stlist(ts@, vs, s, p, heads_size(ts@));
        },
        _ => {},
    }
}

pub proof fn lemma_rt_slist(t2: ParamType, vs: Seq<AbiVal>, s: Seq<u8>, p: nat)
    requires
        fits_ulist(vs, t2),
        wf_ty(t2),
        !is_dynamic(t2),
        p + vs.len() * static_size(t2) <= s.len(),
        s.subrange(p as int, (p + vs.len() * static_size(t2)) as int) == enc_utails(t2, vs),
    ensures
        dec_slist(t2, s, p, vs.len()) == Some(vs),
    decreases ty_size(t2), 4int, vs.len(),
{
    let ss = static_size(t2);
    if vs.len() == 0 {
        assert(vs =~= Seq::<AbiVal>::empty());
    } else {
        lemma_enc_static_len(t2, vs[0]);
        lemma_utails_len(t2, vs.drop_first());
        assert(vs.len() * ss == ss + (vs.len() - 1) * ss) by (nonlinear_arith);
        let whole = s.subrange(p as int, (p + vs.len() * ss) as int);
        assert(whole == enc(t2, vs[0]) + enc_utails(t2, vs.drop_first()));
        assert forall|i: int| 0 <= i < ss implies s.subrange(p as int, (p + ss) as int)[i] == enc(
            t2,
            vs[0],
        )[i] by {
            assert(whole[i] == (enc(t2, vs[0]) + enc_utails(t2, vs.drop_first()))[i]);
        }
        assert(s.subrange(p as int, (p + ss) as int) =~= enc(t2, vs[0]));
        lemma_rt_static(t2, vs[0], s, p);
        assert forall|i: int| 0 <= i < (vs.len() - 1) * ss implies s.subrange(
            (p + ss) as int,
            (p + vs.len() * ss) as int,
        )[i] == enc_utails(t2, vs.drop_first())[i] by {
            assert(whole[ss + i] == (enc(t2, vs[0]) + enc_utails(t2, vs.drop_first()))[ss + i]);
        }
        assert(s.subrange((p + ss) as int, (p + vs.len() * ss) as int) =~= enc_utails(
            t2,
            vs.drop_first(),
        ));
        lemma_rt_slist(t2, vs.drop_first(), s, p + ss);
        assert(seq![vs[0]] + vs.drop_first() =~= vs);
    }
}

pub proof fn lemma_rt_stlist(ts: Seq<ParamType>, vs: Seq<AbiVal>, s: Seq<u8>, p: nat, off: nat)
    requires
        fits_tlist(vs, ts),
        wf_tys(ts),
        !any_dynamic(ts),
        p + total_static(ts) <= s.len(),
        s.subrange(p as int, (p + total_static(ts)) as int) == enc_theads(ts, vs, off),
    ensures
        dec_stlist(ts, s, p) == Some(vs),
    decreases tys_size(ts), 4int, 0int,
{
    if ts.len() == 0 {
        assert(vs =~= Seq::<AbiVal>::empty());
    } else {
        lemma_tys_size_elem(ts, 0);
        lemma_ty_size_pos(ts[0]);
        lemma_enc_static_len(ts[0], vs[0]);
        lemma_theads_static_len(ts.drop_first(), vs.drop_first(), off);
        let ss = static_size(ts[0]);
        let rest = enc_theads(ts.drop_first(), vs.drop_first(), off);
        let whole = s.subrange(p as int, (p + total_static(ts)) as int);
        assert(whole == enc(ts[0], vs[0]) + rest);
        assert forall|i: int| 0 <= i < ss implies s.subrange(p as int, (p + ss) as int)[i] == enc(
            ts[0],
            vs[0],
        )[i] by {
            assert(whole[i] == (enc(ts[0], vs[0]) + rest)[i]);
        }
        assert(s.subrange(p as int, (p + ss) as int) =~= enc(ts[0], vs[0]));
        lemma_rt_static(ts[0], vs[0], s, p);
        assert forall|i: int| 0 <= i < total_static(ts.drop_first()) implies s.subrange(
            (p + ss) as int,
            (p + total_static(ts)) as int,
        )[i] == rest[i] by {
            assert(whole[ss + i] == (enc(ts[0], vs[0]) + rest)[ss + i]);
        }
        assert(s.subrange((p + ss) as int, (p + total_static(ts)) as int) =~= rest);
        lemma_rt_stlist(ts.drop_first(), vs.drop_first(), s, p + ss, off);
        assert(seq![vs[0]] + vs.drop_first() =~= vs);
    }
}

/// With no dynamic member, walking the head region with offsets in play
/// is the same as the plain in-place walk.
pub proof fn lemma_dec_tlist_static(ts: Seq<ParamType>, s: Seq<u8>, base: nat, hp: nat)
    requires
        !any_dynamic(ts),
    ensures
        dec_tlist(ts, s, base, hp) == dec_stlist(ts, s, hp),
    decreases ts,
{
    if ts.len() > 0 {
        lemma_dec_tlist_static(ts.drop_first(), s, base, hp + head_size(ts[0]));
    }
}

/// A value that fits a static type is never an opaque byte run nor an
/// array, so expansion adds no nested calls.
pub proof fn lemma_expand_static(
    rv: Seq<(Seq<u8>, SigV)>,
    ts: Seq<ParamType>,
    vs: Seq<AbiVal>,
    depth: nat,
)
    requires
        fits_tlist(vs, ts),
        !any_dynamic(ts),
    ensures
        spec_expand_fields(rv, vs, depth) == Ok::<Seq<CallV>, DecErrV>(Seq::empty()),
    decreases vs.len(),
{
    if vs.len() > 0 {
        assert(fits(vs[0], ts[0]));
        assert(!is_dynamic(ts[0]));
        match vs[0] {
            AbiVal::Bytes(_) => {
                match ts[0] {
                    ParamType::Bytes => {
                        assert(is_dynamic(ts[0]));
                    },
                    _ => {
                        assert(!fits(vs[0], ts[0]));
                    },
                }
                assert(false);
            },
            AbiVal::Array(_) => {
                match ts[0] {
                    ParamType::Array(_) => {
                        assert(is_dynamic(ts[0]));
                    },
                    _ => {
                        assert(!fits(vs[0], ts[0]));
                    },
                }
                assert(false);
            },
            _ => {},
        }
        assert(spec_expand_one(rv, vs[0], depth) == Ok::<Seq<CallV>, DecErrV>(Seq::empty()));
        lemma_expand_static(rv, ts.drop_first(), vs.drop_first(), depth);
        assert(Seq::<CallV>::empty() + Seq::<CallV>::empty() =~= Seq::<CallV>::empty());
    }
}

/// The round trip: decoding recovers exactly the encoded arguments, for
/// every signature whose parameters are fixed-width (static) types of any
/// nesting. The data is the four-byte selector followed by the standard
/// encoding of the arguments.
pub proof fn lemma_round_trip_args(ts: Seq<ParamType>, vs: Seq<AbiVal>, s: Seq<u8>)
    requires
        fits_tlist(vs, ts),
        wf_tys(ts),
        !any_dynamic(ts),
        4 + total_static(ts) <= s.len(),
        s.subrange(4, (4 + total_static(ts)) as int) == enc_tblock(ts, vs),
    ensures
        dec_args(ts, s, 4) == Some(vs),
{
    lemma_ttails_static_empty(ts, vs);
    assert(enc_tblock(ts, vs) =~= enc_theads(ts, vs, heads_size(ts)));
    lemma_rt_stlist(ts, vs, s, 4, heads_size(ts));
    lemma_dec_tlist_static(ts, s, 4, 4);
}

/// The whole round trip through call decoding: call data made of a
/// registered selector and the encoding of fitting static arguments
/// decodes to exactly one call carrying those arguments.
pub proof fn lemma_round_trip_call(
    rv: Seq<(Seq<u8>, SigV)>,
    sig: SigV,
    vs: Seq<AbiVal>,
    s: Seq<u8>,
)
    requires
        s.len() >= 4,
        resolve_sig(rv, s.subrange(0, 4)) == Some(sig),
        fits_tlist(vs, sig.ptypes),
        wf_tys(sig.ptypes),
        !any_dynamic(sig.ptypes),
        s.len() == 4 + total_static(sig.ptypes),
        s.subrange(4, s.len() as int) == enc_tblock(sig.ptypes, vs),
    ensures
        spec_decode_call(rv, s, 0) == Ok::<Seq<CallV>, DecErrV>(
            seq![CallV { name: sig.name, fields: zip_fields(sig.pnames, vs), depth: 0 }],
        ),
{
    lemma_round_trip_args(sig.ptypes, vs, s);
    lemma_expand_static(rv, sig.ptypes, vs, 0);
    let call = CallV { name: sig.name, fields: zip_fields(sig.pnames, vs), depth: 0 };
    assert(seq![call] + Seq::<CallV>::empty() =~= seq![call]);
}

/// A big-endian word denotes the value it was built from, reduced to the
/// word's range.
pub proof fn lemma_be_wordk(n: nat, k: nat)
    ensures
        be_nat(wordk(n, k)) == n % pow256(k),
    decreases k,
{
    if k == 0 {
        assert(n % 1 == 0) by (nonlinear_arith);
    } else {
        lemma_be_wordk(n / 256, (k - 1) as nat);
        let m = pow256((k - 1) as nat);
        crate::numeric::lemma_pow256_pos((k - 1) as nat);
        assert(wordk(n, k).drop_last() =~= wordk(n / 256, (k - 1) as nat));
        assert(be_nat(wordk(n, k)) == ((n / 256) % m) * 256 + n % 256);
        vstd::arithmetic::div_mod::lemma_breakdown(n as int, 256, m as int);
        assert(n % (256 * m) == 256 * ((n / 256) % m) + n % 256);
        assert(((n / 256) % m) * 256 == 256 * ((n / 256) % m)) by (nonlinear_arith);
        assert(pow256(k) == 256 * m);
    }
}

/// Decoding a length-prefixed byte run recovers exactly the encoded run.
pub proof fn lemma_rt_byte_run(b: Seq<u8>, s: Seq<u8>, p: nat)
    requires
        b.len() < pow256(32),
        p + 32 + b.len() <= s.len(),
        s.subrange(p as int, (p + 32) as int) == word32(b.len()),
        s.subrange((p + 32) as int, (p + 32 + b.len()) as int) == b,
    ensures
        dec_byte_run(s, p) == Some(b),
{
    lemma_be_wordk(b.len(), 32);
    assert(b.len() % pow256(32) == b.len()) by {
        vstd::arithmetic::div_mod::lemma_small_mod(b.len(), pow256(32));
    }
    assert(be_nat(s.subrange(p as int, (p + 32) as int)) == b.len());
}

/// The round trip for the multicall carrier shape: one byte-run argument,
/// laid out as its head offset, its length, and its padded payload.
pub proof fn lemma_rt_single_byte_run_arg(b: Seq<u8>, s: Seq<u8>)
    requires
        b.len() < pow256(32),
        4 + 64 + b.len() <= s.len(),
        s.subrange(4, 36) == word32(32),
        s.subrange(36, 68) == word32(b.len()),
        s.subrange(68, (68 + b.len()) as int) == b,
    ensures
        dec_args(seq![ParamType::Bytes], s, 4) == Some(seq![AbiVal::Bytes(b)]),
{
    let ts = seq![ParamType::Bytes];
    lemma_be_wordk(32, 32);
    assert(32nat % pow256(32) == 32) by {
        crate::numeric::lemma_pow256_pos(32);
        assert(pow256(32) >= pow256(3)) by {
            lemma_pow256_le_rt(3, 32);
        }
        reveal_with_fuel(pow256, 5);
        assert(pow256(3) == 256 * (256 * (256 * 1)));
        vstd::arithmetic::div_mod::lemma_small_mod(32, pow256(32));
    }
    assert(be_nat(s.subrange(4, 36)) == 32);
    lemma_rt_byte_run(b, s, 36);
    assert(crate::abi::dec_value(ParamType::Bytes, s, 36nat) == Some(AbiVal::Bytes(b)));
    assert(ts[0] == ParamType::Bytes);
    assert(is_dynamic(ts[0]));
    assert(ts.drop_first() =~= Seq::<ParamType>::empty());
    assert(dec_tlist(ts.drop_first(), s, 4, 4 + head_size(ts[0])) == Some(Seq::<AbiVal>::empty()));
    assert(dec_tlist(ts, s, 4, 4) == Some(seq![AbiVal::Bytes(b)] + Seq::<AbiVal>::empty()));
    assert(seq![AbiVal::Bytes(b)] + Seq::<AbiVal>::empty() =~= seq![AbiVal::Bytes(b)]);
}

/// Decoding a run of static elements in place recovers them all.
pub proof fn lemma_rt_ulist_static(t2: ParamType, vs: Seq<AbiVal>, s: Seq<u8>, base: nat, hp: nat)
    requires
        fits_ulist(vs, t2),
        wf_ty(t2),
        !is_dynamic(t2),
        hp + vs.len() * static_size(t2) <= s.len(),
        s.subrange(hp as int, (hp + vs.len() * static_size(t2)) as int) == enc_utails(t2, vs),
    ensures
        dec_ulist(t2, s, base, hp, vs.len()) == Some(vs),
    decreases vs.len(),
{
    let ss = static_size(t2);
    if vs.len() == 0 {
        assert(vs =~= Seq::<AbiVal>::empty());
    } else {
        lemma_enc_static_len(t2, vs[0]);
        lemma_utails_len(t2, vs.drop_first());
        assert(vs.len() * ss == ss + (vs.len() - 1) * ss) by (nonlinear_arith);
        let whole = s.subrange(hp as int, (hp + vs.len() * ss) as int);
        assert(whole == enc(t2, vs[0]) + enc_utails(t2, vs.drop_first()));
        assert forall|i: int| 0 <= i < ss implies s.subrange(hp as int, (hp + ss) as int)[i] == enc(
            t2,
            vs[0],
        )[i] by {
            assert(whole[i] == (enc(t2, vs[0]) + enc_utails(t2, vs.drop_first()))[i]);
        }
        assert(s.subrange(hp as int, (hp + ss) as int) =~= enc(t2, vs[0]));
        lemma_rt_static(t2, vs[0], s, hp);
        assert forall|i: int| 0 <= i < (vs.len() - 1) * ss implies s.subrange(
            (hp + ss) as int,
            (hp + vs.len() * ss) as int,
        )[i] == enc_utails(t2, vs.drop_first())[i] by {
            assert(whole[ss + i] == (enc(t2, vs[0]) + enc_utails(t2, vs.drop_first()))[ss + i]);
        }
        assert(s.subrange((hp + ss) as int, (hp + vs.len() * ss) as int) =~= enc_utails(
            t2,
            vs.drop_first(),
        ));
        lemma_rt_ulist_static(t2, vs.drop_first(), s, base, hp + ss);
        assert(seq![vs[0]] + vs.drop_first() =~= vs);
    }
}

/// Decoding a count-prefixed array of static elements recovers exactly
/// the encoded elements.
pub proof fn lemma_rt_array_static(t2: ParamType, vs: Seq<AbiVal>, s: Seq<u8>, p: nat)
    requires
        fits_ulist(vs, t2),
        wf_ty(t2),
        !is_dynamic(t2),
        vs.len() < pow256(32),
        p + 32 + vs.len() * static_size(t2) <= s.len(),
        p + 32 + vs.len() * 32 <= s.len(),
        s.subrange(p as int, (p + 32) as int) == word32(vs.len()),
        s.subrange((p + 32) as int, (p + 32 + vs.len() * static_size(t2)) as int) == enc_utails(
            t2,
            vs,
        ),
    ensures
        dec_value(ParamType::Array(Box::new(t2)), s, p) == Some(AbiVal::Array(vs)),
{
    lemma_be_wordk(vs.len(), 32);
    assert(vs.len() % pow256(32) == vs.len()) by {
        vstd::arithmetic::div_mod::lemma_small_mod(vs.len(), pow256(32));
    }
    assert(be_nat(s.subrange(p as int, (p + 32) as int)) == vs.len());
    lemma_rt_ulist_static(t2, vs, s, p + 32, p + 32);
    assert(is_dynamic(ParamType::Array(Box::new(t2))));
}

/// A single dynamic argument sits behind one offset word pointing just
/// past the head region; decoding the argument block reduces to decoding
/// the value itself.
pub proof fn lemma_rt_single_dynamic_arg(t: ParamType, v: AbiVal, s: Seq<u8>)
    requires
        is_dynamic(t),
        s.len() >= 36,
        s.subrange(4, 36) == word32(32),
        dec_value(t, s, 36) == Some(v),
    ensures
        dec_args(seq![t], s, 4) == Some(seq![v]),
{
    let ts = seq![t];
    lemma_be_wordk(32, 32);
    assert(32nat % pow256(32) == 32) by {
        reveal_with_fuel(pow256, 5);
        lemma_pow256_le_rt(3, 32);
        vstd::arithmetic::div_mod::lemma_small_mod(32, pow256(32));
    }
    assert(be_nat(s.subrange(4, 36)) == 32);
    assert(ts.drop_first() =~= Seq::<ParamType>::empty());
    assert(dec_tlist(ts.drop_first(), s, 4, 4 + head_size(ts[0])) == Some(Seq::<AbiVal>::empty()));
    assert(dec_tlist(ts, s, 4, 4) == Some(seq![v] + Seq::<AbiVal>::empty()));
    assert(seq![v] + Seq::<AbiVal>::empty() =~= seq![v]);
}

/// Decoding a run of byte-run elements, each behind its own offset word,
/// recovers them all: the offsets count from `base`, and the element data
/// lies in the tail region starting `off` past the base.
pub proof fn lemma_rt_ulist_byte_runs(vs: Seq<AbiVal>, s: Seq<u8>, base: nat, hp: nat, off: nat)
    requires
        fits_ulist(vs, ParamType::Bytes),
        off + enc_utails(ParamType::Bytes, vs).len() < pow256(32),
        base + off + enc_utails(ParamType::Bytes, vs).len() <= s.len(),
        hp + 32 * vs.len() <= base + off,
        s.subrange(hp as int, (hp + 32 * vs.len()) as int) == enc_uheads(ParamType::Bytes, vs, off),
        s.subrange((base + off) as int, (base + off + enc_utails(ParamType::Bytes, vs).len()) as int)
            == enc_utails(ParamType::Bytes, vs),
    ensures
        dec_ulist(ParamType::Bytes, s, base, hp, vs.len()) == Some(vs),
    decreases vs.len(),
{
    let t2 = ParamType::Bytes;
    if vs.len() == 0 {
        assert(vs =~= Seq::<AbiVal>::empty());
    } else {
        assert(fits(vs[0], ParamType::Bytes));
        assert(vs[0] is Bytes) by {
            match vs[0] {
                AbiVal::Bytes(_) => {},
                _ => {
                    assert(!fits(vs[0], ParamType::Bytes));
                },
            }
        }
        let b0 = vs[0]->Bytes_0;
        assert(enc(t2, vs[0]) == word32(b0.len()) + b0 + zeros(crate::abi::pad32(b0.len())));
        let e0 = enc(t2, vs[0]);
        let rest_tails = enc_utails(t2, vs.drop_first());
        assert(enc_utails(t2, vs) == e0 + rest_tails);
        let heads = s.subrange(hp as int, (hp + 32 * vs.len()) as int);
        let tails = s.subrange(
            (base + off) as int,
            (base + off + enc_utails(t2, vs).len()) as int,
        );
        // The first head word carries the offset of the first element.
        lemma_wordk_len(off, 32);
        assert(enc_uheads(t2, vs, off) == word32(off) + enc_uheads(
            t2,
            vs.drop_first(),
            off + e0.len(),
        ));
        assert forall|i: int| 0 <= i < 32 implies s.subrange(hp as int, (hp + 32) as int)[i]
            == word32(off)[i] by {
            assert(heads[i] == (word32(off) + enc_uheads(t2, vs.drop_first(), off + e0.len()))[i]);
        }
        assert(s.subrange(hp as int, (hp + 32) as int) =~= word32(off));
        lemma_be_wordk(off, 32);
        assert(off % pow256(32) == off) by {
            vstd::arithmetic::div_mod::lemma_small_mod(off, pow256(32));
        }
        assert(be_nat(s.subrange(hp as int, (hp + 32) as int)) == off);
        // The first element's encoding opens the tail region.
        assert forall|i: int| 0 <= i < 32 implies s.subrange(
            (base + off) as int,
            (base + off + 32) as int,
        )[i] == word32(b0.len())[i] by {
            assert(tails[i] == (e0 + rest_tails)[i]);
            assert(e0[i] == (word32(b0.len()) + b0 + zeros(crate::abi::pad32(b0.len())))[i]);
            lemma_wordk_len(b0.len(), 32);
        }
        lemma_wordk_len(b0.len(), 32);
        assert(s.subrange((base + off) as int, (base + off + 32) as int) =~= word32(b0.len()));
        assert forall|i: int| 0 <= i < b0.len() implies s.subrange(
            (base + off + 32) as int,
            (base + off + 32 + b0.len()) as int,
        )[i] == b0[i] by {
            assert(tails[32 + i] == (e0 + rest_tails)[32 + i]);
            assert(e0[32 + i] == (word32(b0.len()) + b0 + zeros(crate::abi::pad32(b0.len())))[32
                + i]);
            assert((word32(b0.len()) + b0)[32 + i] == b0[i]);
        }
        assert(s.subrange((base + off + 32) as int, (base + off + 32 + b0.len()) as int) =~= b0);
        assert(b0.len() < pow256(32));
        lemma_rt_byte_run(b0, s, base + off);
        assert(dec_value(t2, s, base + off) == Some(vs[0]));
        // The remaining heads and tails shift by one word and one encoding.
        assert(32 * vs.len() == 32 + 32 * (vs.len() - 1)) by (nonlinear_arith);
        assert forall|i: int| 0 <= i < 32 * (vs.len() - 1) implies #[trigger] (s.subrange(
            (hp + 32) as int,
            (hp + 32 + 32 * (vs.len() - 1)) as int,
        )[i]) == enc_uheads(t2, vs.drop_first(), off + e0.len())[i] by {
            assert(heads[32 + i] == (word32(off) + enc_uheads(
                t2,
                vs.drop_first(),
                off + e0.len(),
            ))[32 + i]);
        }
        assert(s.subrange((hp + 32) as int, (hp + 32 + 32 * (vs.len() - 1)) as int) =~= enc_uheads(
            t2,
            vs.drop_first(),
            off + e0.len(),
        ));
        assert forall|i: int| 0 <= i < rest_tails.len() implies #[trigger] (s.subrange(
            (base + (off + e0.len())) as int,
            (base + (off + e0.len()) + rest_tails.len()) as int,
        )[i]) == rest_tails[i] by {
            assert(tails[e0.len() + i] == (e0 + rest_tails)[e0.len() + i]);
        }
        assert(s.subrange(
            (base + (off + e0.len())) as int,
            (base + (off + e0.len()) + rest_tails.len()) as int,
        ) =~= rest_tails);
        lemma_rt_ulist_byte_runs(vs.drop_first(), s, base, hp + 32, off + e0.len());
        assert(head_size(t2) == 32);
        assert(seq![vs[0]] + vs.drop_first() =~= vs);
    }
}

/// Decoding a count-prefixed array of byte runs recovers exactly the
/// encoded runs: the round trip for the multicall carrier.
pub proof fn lemma_rt_array_byte_runs(vs: Seq<AbiVal>, s: Seq<u8>, p: nat)
    requires
        fits_ulist(vs, ParamType::Bytes),
        vs.len() < pow256(32),
        32 * vs.len() + enc_utails(ParamType::Bytes, vs).len() < pow256(32),
        p + 32 + 32 * vs.len() + enc_utails(ParamType::Bytes, vs).len() <= s.len(),
        s.subrange(p as int, (p + 32) as int) == word32(vs.len()),
        s.subrange((p + 32) as int, (p + 32 + 32 * vs.len()) as int) == enc_uheads(
            ParamType::Bytes,
            vs,
            32 * vs.len(),
        ),
        s.subrange(
            (p + 32 + 32 * vs.len()) as int,
            (p + 32 + 32 * vs.len() + enc_utails(ParamType::Bytes, vs).len()) as int,
        ) == enc_utails(ParamType::Bytes, vs),
    ensures
        dec_value(ParamType::Array(Box::new(ParamType::Bytes)), s, p) == Some(AbiVal::Array(vs)),
{
    lemma_be_wordk(vs.len(), 32);
    assert(vs.len() % pow256(32) == vs.len()) by {
        vstd::arithmetic::div_mod::lemma_small_mod(vs.len(), pow256(32));
    }
    assert(be_nat(s.subrange(p as int, (p + 32) as int)) == vs.len());
    assert(vs.len() * 32 == 32 * vs.len()) by (nonlinear_arith);
    lemma_rt_ulist_byte_runs(vs, s, p + 32, p + 32, 32 * vs.len());
    assert(is_dynamic(ParamType::Array(Box::new(ParamType::Bytes))));
}

proof fn lemma_pow256_le_rt(a: nat, b: nat)
    requires
        a <= b,
    ensures
        pow256(a) <= pow256(b),
    decreases b,
{
    if a < b {
        lemma_pow256_le_rt(a, (b - 1) as nat);
        crate::numeric::lemma_pow256_pos((b - 1) as nat);
    }
}

} // verus!
