use vstd::prelude::*;
use crate::numeric::{be_nat, pow256, lemma_be_nat_bound, lemma_be_nat_zero};
use crate::abi::{
    ParamType, DecodedValue, AbiVal, val_view, vals_view, lemma_vals_view_index, is_dynamic,
    any_dynamic, dec_static, dec_slist, dec_stlist, dec_value, dec_ulist, dec_tlist, dec_args,
    dec_byte_run, static_size, total_static, head_size, ty_size, tys_size, lemma_tys_size_elem,
};

verus! {

broadcast use vstd::seq::group_seq_axioms, vstd::seq_lib::group_seq_lib_default, vstd::std_specs::vec::group_vec_axioms;

/// A copy of the byte range `[from, to)`.
pub fn copy_range(data: &Vec<u8>, from: usize, to: usize) -> (r: Vec<u8>)
    requires
        from <= to <= data@.len(),
    ensures
        r@ == data@.subrange(from as int, to as int),
{
    let mut r: Vec<u8> = Vec::new();
    let mut i: usize = from;
    while i < to
        invariant
            from <= i <= to <= data@.len(),
            r@ =~= data@.subrange(from as int, i as int),
        decreases to - i,
    {
        r.push(data[i]);
        proof {
            assert(data@.subrange(from as int, i + 1) =~= data@.subrange(from as int, i as int)
                .push(data@[i as int]));
        }
        i += 1;
    }
    r
}

pub fn bytes_eq(a: &Vec<u8>, b: &Vec<u8>) -> (r: bool)
    ensures
        r == (a@ == b@),
{
    if a.len() != b.len() {
        return false;
    }
    let mut i: usize = 0;
    while i < a.len()
        invariant
            0 <= i <= a@.len(),
            a@.len() == b@.len(),
            forall|j: int| 0 <= j < i ==> a@[j] == b@[j],
        decreases a@.len() - i,
    {
        if a[i] != b[i] {
            return false;
        }
        i += 1;
    }
    proof {
        assert(a@ =~= b@);
    }
    true
}

pub proof fn lemma_be_split(a: Seq<u8>, b: Seq<u8>)
    ensures
        be_nat(a + b) == be_nat(a) * pow256(b.len()) + be_nat(b),
    decreases b.len(),
{
    if b.len() == 0 {
        assert(a + b =~= a);
        assert(pow256(0) == 1);
    } else {
        assert((a + b).drop_last() =~= a + b.drop_last());
        lemma_be_split(a, b.drop_last());
        let x = be_nat(a);
        let q = be_nat(b.drop_last());
        let p = pow256((b.len() - 1) as nat);
        assert(be_nat(a + b) == (x * p + q) * 256 + b.last());
        assert((x * p + q) * 256 == x * p * 256 + q * 256) by (nonlinear_arith);
        assert(x * p * 256 == x * (256 * p)) by (nonlinear_arith);
        assert(pow256(b.len()) == 256 * p);
        assert(be_nat(b) == q * 256 + b.last());
    }
}

/// Reads the 32-byte word at `p` as a length or offset, refusing values
/// beyond the address range.
pub fn word_as_len(data: &Vec<u8>, p: usize) -> (r: Option<usize>)
    requires
        p + 32 <= data@.len(),
    ensures
        match r {
            Some(o) => o as nat == be_nat(data@.subrange(p as int, p + 32)),
            None => be_nat(data@.subrange(p as int, p + 32)) > usize::MAX,
        },
{
    let ghost w = data@.subrange(p as int, p + 32);
    let ghost hi = data@.subrange(p as int, p + 16);
    let ghost lo = data@.subrange(p + 16, p + 32);
    let dlen: usize = data.len();
    let mut i: usize = 0;
    while i < 16
        invariant
            0 <= i <= 16,
            p + 32 <= data@.len(),
            data@.len() == dlen,
            hi == data@.subrange(p as int, p + 16),
            lo == data@.subrange(p + 16, p + 32),
            w == data@.subrange(p as int, p + 32),
            forall|j: int| 0 <= j < i ==> hi[j] == 0u8,
        decreases 16 - i,
    {
        if data[p + i] != 0u8 {
            proof {
                assert(w =~= hi + lo);
                lemma_be_split(hi, lo);
                reveal_with_fuel(pow256, 17);
                assert(pow256(16) == 0x100000000000000000000000000000000);
                assert(hi[i as int] != 0u8);
                crate::numeric::lemma_be_nat_nonzero(hi, i as int);
                let x = be_nat(hi);
                let y = pow256(16);
                assert(x * y >= 1 * y) by (nonlinear_arith)
                    requires
                        x >= 1,
                        y >= 0,
                ;
                assert(usize::MAX < 0x100000000000000000000000000000000);
                assert(be_nat(w) >= x * y);
                assert(be_nat(data@.subrange(p as int, p + 32)) > usize::MAX);
            }
            return None;
        }
        i += 1;
    }
    proof {
        lemma_be_nat_zero(hi);
    }
    proof {
        reveal_with_fuel(pow256, 17);
        assert(pow256(16) == 0x100000000000000000000000000000000);
    }
    let mut acc: u128 = 0;
    let mut k: usize = 0;
    while k < 16
        invariant
            0 <= k <= 16,
            p + 32 <= data@.len(),
            data@.len() == dlen,
            w == data@.subrange(p as int, p + 32),
            hi == data@.subrange(p as int, p + 16),
            lo == data@.subrange(p + 16, p + 32),
            forall|j: int| 0 <= j < 16 ==> hi[j] == 0u8,
            acc as nat == be_nat(lo.take(k as int)),
            (acc as nat) < pow256(k as nat),
            pow256(16) == 0x100000000000000000000000000000000,
        decreases 16 - k,
    {
        let b: u8 = data[p + 16 + k];
        proof {
            crate::numeric::lemma_be_nat_take_step(lo, k as int);
            let a = acc as nat;
            let pk = pow256(k as nat);
            assert(pow256((k + 1) as nat) == 256 * pk);
            assert(a * 256 + 255 < 256 * pk) by (nonlinear_arith)
                requires
                    a < pk,
            ;
            lemma_pow256_le(((k + 1) as nat), 16);
        }
        acc = acc * 256 + (b as u128);
        k += 1;
    }
    proof {
        assert(lo.take(16) =~= lo);
        assert(w =~= hi + lo);
        lemma_be_split(hi, lo);
        lemma_be_nat_zero(hi);
    }
    if acc > (usize::MAX as u128) {
        None
    } else {
        Some(acc as usize)
    }
}

proof fn lemma_pow256_le(a: nat, b: nat)
    requires
        a <= b,
    ensures
        pow256(a) <= pow256(b),
    decreases b,
{
    if a < b {
        lemma_pow256_le(a, (b - 1) as nat);
        crate::numeric::lemma_pow256_pos((b - 1) as nat);
    }
}

pub proof fn lemma_le_div32(a: nat, b: nat)
    ensures
        (a <= b / 32) <==> (a * 32 <= b),
{
    vstd::arithmetic::div_mod::lemma_fundamental_div_mod(b as int, 32);
    if a <= b / 32 {
        let q = b / 32;
        assert(a * 32 <= q * 32) by (nonlinear_arith)
            requires
                a <= q,
        ;
        assert(q * 32 <= b);
    }
    if a * 32 <= b {
        assert((a * 32) / 32 <= b / 32) by {
            vstd::arithmetic::div_mod::lemma_div_is_ordered((a * 32) as int, b as int, 32);
        }
        assert((a * 32) / 32 == a) by {
            vstd::arithmetic::div_mod::lemma_div_by_multiple(a as int, 32);
        }
    }
}

pub proof fn lemma_vals_view_push(s: Seq<DecodedValue>, v: DecodedValue)
    ensures
        vals_view(s.push(v)) =~= vals_view(s) + seq![val_view(v)],
{
    lemma_vals_view_index(s.push(v));
    lemma_vals_view_index(s);
}

/// Whether the encoding of a type is reached through an offset word.
pub fn is_dynamic_x(t: &ParamType) -> (r: bool)
    ensures
        r == is_dynamic(*t),
    decreases ty_size(*t),
{
    match t {
        ParamType::Bytes => true,
        ParamType::Str => true,
        ParamType::Array(_) => true,
        ParamType::FixedArray(t2, _) => is_dynamic_x(&**t2),
        ParamType::Tuple(ts) => {
            let mut i: usize = 0;
            let mut found: bool = false;
            while i < ts.len()
                invariant
                    0 <= i <= ts@.len(),
                    found == any_dynamic(ts@.take(i as int)),
                    ty_size(*t) == 1 + tys_size(ts@),
                    is_dynamic(*t) == any_dynamic(ts@),
                decreases ts@.len() - i,
            {
                proof {
                    lemma_tys_size_elem(ts@, i as int);
                }
                if is_dynamic_x(&ts[i]) {
                    found = true;
                }
                proof {
                    lemma_any_dynamic_take(ts@, i as int);
                }
                i += 1;
            }
            proof {
                assert(ts@.take(ts@.len() as int) =~= ts@);
            }
            found
        },
        _ => false,
    }
}

proof fn lemma_any_dynamic_take(ts: Seq<ParamType>, i: int)
    requires
        0 <= i < ts.len(),
    ensures
        any_dynamic(ts.take(i + 1)) == (any_dynamic(ts.take(i)) || is_dynamic(ts[i])),
    decreases i,
{
    if i == 0 {
        assert(ts.take(1).drop_first() =~= ts.take(0));
        assert(ts.take(1)[0] == ts[0]);
        assert(any_dynamic(ts.take(0)) == false);
    } else {
        lemma_any_dynamic_take(ts.drop_first(), i - 1);
        assert(ts.take(i + 1).drop_first() =~= ts.drop_first().take(i));
        assert(ts.take(i).drop_first() =~= ts.drop_first().take(i - 1));
        assert(ts.drop_first()[i - 1] == ts[i]);
        assert(ts.take(i + 1)[0] == ts[0]);
        assert(ts.take(i)[0] == ts[0]);
    }
}

/// Decodes the static value of type `t` at position `p`, returning the
/// value and the position just past it.
pub fn dec_static_x(t: &ParamType, data: &Vec<u8>, p: usize) -> (r: Option<(DecodedValue, usize)>)
    ensures
        match r {
            Some(pair) => dec_static(*t, data@, p as nat) == Some(pair.0@) && pair.1 as int == p
                + static_size(*t) && (pair.1 <= data@.len() || pair.1 == p),
            None => dec_static(*t, data@, p as nat) is None,
        },
    decreases ty_size(*t), 0int,
{
    match t {
        ParamType::Address => {
            if data.len() >= 32 && p <= data.len() - 32 {
                let b = copy_range(data, p + 12, p + 32);
                Some((DecodedValue::Address(b), p + 32))
            } else {
                None
            }
        },
        ParamType::Boolean => {
            if data.len() >= 32 && p <= data.len() - 32 {
                Some((DecodedValue::Boolean(data[p + 31] != 0), p + 32))
            } else {
                None
            }
        },
        ParamType::Uint(_) => {
            if data.len() >= 32 && p <= data.len() - 32 {
                let b = copy_range(data, p, p + 32);
                Some((DecodedValue::Uint(b), p + 32))
            } else {
                None
            }
        },
        ParamType::Int(_) => {
            if data.len() >= 32 && p <= data.len() - 32 {
                let b = copy_range(data, p, p + 32);
                Some((DecodedValue::Int(b), p + 32))
            } else {
                None
            }
        },
        ParamType::FixedBytes(n) => {
            if *n <= 32 && data.len() >= 32 && p <= data.len() - 32 {
                let b = copy_range(data, p, p + *n);
                Some((DecodedValue::FixedBytes(b), p + 32))
            } else {
                None
            }
        },
        ParamType::FixedArray(t2, n) => {
            let mut out: Vec<DecodedValue> = Vec::new();
            let mut cur: usize = p;
            let mut k: usize = 0;
            proof {
                assert(vals_view(out@) =~= Seq::<AbiVal>::empty());
            }
            while k < *n
                invariant
                    0 <= k <= *n as int,
                    cur as int == p + (k as int) * static_size(**t2),
                    cur <= data@.len() || cur == p,
                    ty_size(*t) == 1 + ty_size(**t2),
                    static_size(*t) == (*n as nat) * static_size(**t2),
                    dec_static(*t, data@, p as nat) == (match dec_slist(
                        **t2,
                        data@,
                        p as nat,
                        *n as nat,
                    ) {
                        Some(vs) => Some(AbiVal::FixedArray(vs)),
                        None => None::<AbiVal>,
                    }),
                    ({
                        let rem = dec_slist(**t2, data@, cur as nat, (*n - k) as nat);
                        &&& (rem matches Some(rest) ==> dec_slist(**t2, data@, p as nat, *n as nat)
                            == Some(vals_view(out@) + rest))
                        &&& (rem is None ==> dec_slist(**t2, data@, p as nat, *n as nat) is None)
                    }),
                decreases *n - k,
            {
                let ghost rem0 = dec_slist(**t2, data@, cur as nat, (*n - k) as nat);
                match dec_static_x(&**t2, data, cur) {
                    None => {
                        proof {
                            assert(rem0 is None);
                            assert(dec_slist(**t2, data@, p as nat, *n as nat) is None);
                            assert(dec_static(*t, data@, p as nat) is None);
                        }
                        return None;
                    },
                    Some((v, np)) => {
                        proof {
                            lemma_vals_view_push(out@, v);
                            let ss = static_size(**t2);
                            assert((k as int) * ss + ss == (k + 1) * ss) by (nonlinear_arith);
                        }
                        out.push(v);
                        cur = np;
                    },
                }
                k += 1;
            }
            proof {
                assert(dec_slist(**t2, data@, cur as nat, 0nat) == Some(Seq::<AbiVal>::empty()));
                assert(vals_view(out@) + Seq::<AbiVal>::empty() =~= vals_view(out@));
                let ss = static_size(**t2);
                assert((*n as int) * ss == static_size(*t)) by (nonlinear_arith)
                    requires
                        static_size(*t) == (*n as nat) * ss,
                ;
            }
            Some((DecodedValue::FixedArray(out), cur))
        },
        ParamType::Tuple(ts) => {
            let mut out: Vec<DecodedValue> = Vec::new();
            let mut cur: usize = p;
            let mut i: usize = 0;
            proof {
                assert(vals_view(out@) =~= Seq::<AbiVal>::empty());
                assert(ts@.skip(0) =~= ts@);
                assert(ts@.take(0) =~= Seq::<ParamType>::empty());
            }
            while i < ts.len()
                invariant
                    0 <= i <= ts@.len(),
                    cur as int == p + total_static(ts@.take(i as int)),
                    cur <= data@.len() || cur == p,
                    ty_size(*t) == 1 + tys_size(ts@),
                    static_size(*t) == total_static(ts@),
                    dec_static(*t, data@, p as nat) == (match dec_stlist(ts@, data@, p as nat) {
                        Some(vs) => Some(AbiVal::Tuple(vs)),
                        None => None::<AbiVal>,
                    }),
                    ({
                        let rem = dec_stlist(ts@.skip(i as int), data@, cur as nat);
                        &&& (rem matches Some(rest) ==> dec_stlist(ts@, data@, p as nat) == Some(
                            vals_view(out@) + rest,
                        ))
                        &&& (rem is None ==> dec_stlist(ts@, data@, p as nat) is None)
                    }),
                decreases ts@.len() - i,
            {
                proof {
                    assert(ts@.skip(i as int)[0] == ts@[i as int]);
                    assert(ts@.skip(i as int).drop_first() =~= ts@.skip(i + 1));
                }
                proof {
                    lemma_tys_size_elem(ts@, i as int);
                }
                match dec_static_x(&ts[i], data, cur) {
                    None => {
                        proof {
                            assert(dec_stlist(ts@.skip(i as int), data@, cur as nat) is None);
                            assert(dec_stlist(ts@, data@, p as nat) is None);
                            assert(dec_static(*t, data@, p as nat) is None);
                        }
                        return None;
                    },
                    Some((v, np)) => {
                        proof {
                            lemma_vals_view_push(out@, v);
                            lemma_total_static_take(ts@, i as int);
                        }
                        out.push(v);
                        cur = np;
                    },
                }
                i += 1;
            }
            proof {
                assert(ts@.skip(ts@.len() as int) =~= Seq::<ParamType>::empty());
                assert(vals_view(out@) + Seq::<AbiVal>::empty() =~= vals_view(out@));
                assert(ts@.take(ts@.len() as int) =~= ts@);
            }
            Some((DecodedValue::Tuple(out), cur))
        },
        _ => None,
    }
}

proof fn lemma_total_static_take(ts: Seq<ParamType>, i: int)
    requires
        0 <= i < ts.len(),
    ensures
        total_static(ts.take(i + 1)) == total_static(ts.take(i)) + static_size(ts[i]),
    decreases i,
{
    if i == 0 {
        assert(ts.take(1).drop_first() =~= ts.take(0));
        assert(ts.take(1)[0] == ts[0]);
    } else {
        lemma_total_static_take(ts.drop_first(), i - 1);
        assert(ts.take(i + 1).drop_first() =~= ts.drop_first().take(i));
        assert(ts.take(i).drop_first() =~= ts.drop_first().take(i - 1));
        assert(ts.drop_first()[i - 1] == ts[i]);
        assert(ts.take(i + 1)[0] == ts[0]);
        assert(ts.take(i)[0] == ts[0]);
    }
}


/// Decodes the length-prefixed byte run at `p`.
pub fn byte_run_x(data: &Vec<u8>, p: usize) -> (r: Option<Vec<u8>>)
    ensures
        match r {
            Some(b) => dec_byte_run(data@, p as nat) == Some(b@),
            None => dec_byte_run(data@, p as nat) is None,
        },
{
    if data.len() < 32 || p > data.len() - 32 {
        return None;
    }
    match word_as_len(data, p) {
        None => {
            proof {
                let n = be_nat(data@.subrange(p as int, p + 32));
                assert(p + 32 + n > data@.len());
            }
            None
        },
        Some(n) => {
            if n > data.len() - p - 32 {
                None
            } else {
                Some(copy_range(data, p + 32, p + 32 + n))
            }
        },
    }
}

/// Decodes the value of type `t` whose encoding starts at `p`.
pub fn dec_value_x(t: &ParamType, data: &Vec<u8>, p: usize) -> (r: Option<DecodedValue>)
    ensures
        match r {
            Some(v) => dec_value(*t, data@, p as nat) == Some(v@),
            None => dec_value(*t, data@, p as nat) is None,
        },
    decreases ty_size(*t), 1int,
{
    if !is_dynamic_x(t) {
        match dec_static_x(t, data, p) {
            Some(pair) => Some(pair.0),
            None => None,
        }
    } else {
        match t {
            ParamType::Bytes => match byte_run_x(data, p) {
                Some(b) => Some(DecodedValue::Bytes(b)),
                None => None,
            },
            ParamType::Str => match byte_run_x(data, p) {
                Some(b) => Some(DecodedValue::Text(b)),
                None => None,
            },
            ParamType::Array(t2) => {
                if data.len() < 32 || p > data.len() - 32 {
                    return None;
                }
                match word_as_len(data, p) {
                    None => {
                        proof {
                            let n = be_nat(data@.subrange(p as int, p + 32));
                            assert(n * 32 >= n) by (nonlinear_arith);
                            assert(p + 32 + n * 32 > data@.len());
                        }
                        None
                    },
                    Some(n) => {
                        let avail: usize = data.len() - p - 32;
                        proof {
                            lemma_le_div32(n as nat, avail as nat);
                        }
                        if n > avail / 32 {
                            return None;
                        }
                        match dec_ulist_x(&**t2, data, p + 32, p + 32, n) {
                            Some(vs) => Some(DecodedValue::Array(vs)),
                            None => None,
                        }
                    },
                }
            },
            ParamType::FixedArray(t2, n) => {
                if p > data.len() {
                    proof {
                        assert((*n as nat) * 32 >= 0) by (nonlinear_arith);
                    }
                    return None;
                }
                let avail: usize = data.len() - p;
                proof {
                    lemma_le_div32(*n as nat, avail as nat);
                }
                if *n > avail / 32 {
                    return None;
                }
                match dec_ulist_x(&**t2, data, p, p, *n) {
                    Some(vs) => Some(DecodedValue::FixedArray(vs)),
                    None => None,
                }
            },
            ParamType::Tuple(ts) => match dec_tlist_x(ts, data, p, p) {
                Some(vs) => Some(DecodedValue::Tuple(vs)),
                None => None,
            },
            _ => {
                proof {
                    assert(false);
                }
                None
            },
        }
    }
}

/// Decodes `n` elements of type `t2` whose heads start at `hp0`, with
/// offsets counted from `base`.
pub fn dec_ulist_x(t2: &ParamType, data: &Vec<u8>, base: usize, hp0: usize, n: usize) -> (r: Option<
    Vec<DecodedValue>,
>)
    requires
        base <= hp0,
    ensures
        match r {
            Some(vs) => dec_ulist(*t2, data@, base as nat, hp0 as nat, n as nat) == Some(
                vals_view(vs@),
            ),
            None => dec_ulist(*t2, data@, base as nat, hp0 as nat, n as nat) is None,
        },
    decreases ty_size(*t2), 2int,
{
    let dyn_t: bool = is_dynamic_x(t2);
    let mut out: Vec<DecodedValue> = Vec::new();
    let mut cur: usize = hp0;
    let mut k: usize = 0;
    proof {
        assert(vals_view(out@) =~= Seq::<AbiVal>::empty());
    }
    while k < n
        invariant
            0 <= k <= n,
            base <= cur,
            dyn_t == is_dynamic(*t2),
            ({
                let rem = dec_ulist(*t2, data@, base as nat, cur as nat, (n - k) as nat);
                &&& (rem matches Some(rest) ==> dec_ulist(*t2, data@, base as nat, hp0 as nat, n as nat)
                    == Some(vals_view(out@) + rest))
                &&& (rem is None ==> dec_ulist(*t2, data@, base as nat, hp0 as nat, n as nat) is None)
            }),
        decreases n - k,
    {
        if dyn_t {
            if data.len() < 32 || cur > data.len() - 32 {
                return None;
            }
            match word_as_len(data, cur) {
                None => {
                    proof {
                        let off = be_nat(data@.subrange(cur as int, cur + 32));
                        assert(base + off > data@.len());
                    }
                    return None;
                },
                Some(off) => {
                    if off > data.len() - base {
                        return None;
                    }
                    match dec_value_x(t2, data, base + off) {
                        None => {
                            return None;
                        },
                        Some(v) => {
                            proof {
                                lemma_vals_view_push(out@, v);
                            }
                            out.push(v);
                            cur = cur + 32;
                        },
                    }
                },
            }
        } else {
            match dec_static_x(t2, data, cur) {
                None => {
                    return None;
                },
                Some(pair) => {
                    proof {
                        lemma_vals_view_push(out@, pair.0);
                    }
                    let np: usize = pair.1;
                    out.push(pair.0);
                    cur = np;
                },
            }
        }
        k += 1;
    }
    Some(out)
}

/// Decodes the members of `ts` whose heads start at `hp0`, with offsets
/// counted from `base`.
pub fn dec_tlist_x(ts: &Vec<ParamType>, data: &Vec<u8>, base: usize, hp0: usize) -> (r: Option<
    Vec<DecodedValue>,
>)
    requires
        base <= hp0,
    ensures
        match r {
            Some(vs) => dec_tlist(ts@, data@, base as nat, hp0 as nat) == Some(vals_view(vs@)),
            None => dec_tlist(ts@, data@, base as nat, hp0 as nat) is None,
        },
    decreases tys_size(ts@), 2int,
{
    let mut out: Vec<DecodedValue> = Vec::new();
    let mut cur: usize = hp0;
    let mut i: usize = 0;
    proof {
        assert(vals_view(out@) =~= Seq::<AbiVal>::empty());
        assert(ts@.skip(0) =~= ts@);
    }
    while i < ts.len()
        invariant
            0 <= i <= ts@.len(),
            base <= cur,
            ({
                let rem = dec_tlist(ts@.skip(i as int), data@, base as nat, cur as nat);
                &&& (rem matches Some(rest) ==> dec_tlist(ts@, data@, base as nat, hp0 as nat)
                    == Some(vals_view(out@) + rest))
                &&& (rem is None ==> dec_tlist(ts@, data@, base as nat, hp0 as nat) is None)
            }),
        decreases ts@.len() - i,
    {
        proof {
            lemma_tys_size_elem(ts@, i as int);
            assert(ts@.skip(i as int)[0] == ts@[i as int]);
            assert(ts@.skip(i as int).drop_first() =~= ts@.skip(i + 1));
        }
        if is_dynamic_x(&ts[i]) {
            if data.len() < 32 || cur > data.len() - 32 {
                return None;
            }
            match word_as_len(data, cur) {
                None => {
                    proof {
                        let off = be_nat(data@.subrange(cur as int, cur + 32));
                        assert(base + off > data@.len());
                    }
                    return None;
                },
                Some(off) => {
                    if off > data.len() - base {
                        return None;
                    }
                    match dec_value_x(&ts[i], data, base + off) {
                        None => {
                            return None;
                        },
                        Some(v) => {
                            proof {
                                lemma_vals_view_push(out@, v);
                            }
                            out.push(v);
                            cur = cur + 32;
                        },
                    }
                },
            }
        } else {
            match dec_static_x(&ts[i], data, cur) {
                None => {
                    return None;
                },
                Some(pair) => {
                    proof {
                        lemma_vals_view_push(out@, pair.0);
                    }
                    let np: usize = pair.1;
                    out.push(pair.0);
                    cur = np;
                },
            }
        }
        i += 1;
    }
    proof {
        assert(ts@.skip(ts@.len() as int) =~= Seq::<ParamType>::empty());
    }
    Some(out)
}

/// Decodes an argument block laid out at `p`: the public entry for a
/// parameter list.
pub fn decode_args(ts: &Vec<ParamType>, data: &Vec<u8>, p: usize) -> (r: Option<Vec<DecodedValue>>)
    ensures
        match r {
            Some(vs) => dec_args(ts@, data@, p as nat) == Some(vals_view(vs@)),
            None => dec_args(ts@, data@, p as nat) is None,
        },
{
    dec_tlist_x(ts, data, p, p)
}

/// The name of a decoded value's shape.
pub open spec fn spec_kind_name(v: AbiVal) -> Seq<char> {
    match v {
        AbiVal::Address(_) => "Address"@,
        AbiVal::Boolean(_) => "Bool"@,
        AbiVal::Uint(_) => "Uint"@,
        AbiVal::Int(_) => "Int"@,
        AbiVal::FixedBytes(_) => "FixedBytes"@,
        AbiVal::Bytes(_) => "Bytes"@,
        AbiVal::Text(_) => "String"@,
        AbiVal::FixedArray(_) => "FixedArray"@,
        AbiVal::Array(_) => "Array"@,
        AbiVal::Tuple(_) => "Tuple"@,
    }
}

/// Names the shape of a decoded value.
pub fn kind_name(v: &DecodedValue) -> (r: &'static str)
    ensures
        r@ == spec_kind_name(v@),
{
    match v {
        DecodedValue::Address(_) => "Address",
        DecodedValue::Boolean(_) => "Bool",
        DecodedValue::Uint(_) => "Uint",
        DecodedValue::Int(_) => "Int",
        DecodedValue::FixedBytes(_) => "FixedBytes",
        DecodedValue::Bytes(_) => "Bytes",
        DecodedValue::Text(_) => "String",
        DecodedValue::FixedArray(_) => "FixedArray",
        DecodedValue::Array(_) => "Array",
        DecodedValue::Tuple(_) => "Tuple",
    }
}

} // verus!
