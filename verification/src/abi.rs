use vstd::prelude::*;
use crate::numeric::be_nat;

verus! {

broadcast use vstd::seq::group_seq_axioms;

/// A parameter type of a contract function, after the standard contract
/// interface type grammar. Array and tuple shapes nest arbitrarily.
pub enum ParamType {
    Address,
    Boolean,
    Uint(u32),
    Int(u32),
    FixedBytes(usize),
    Bytes,
    Str,
    FixedArray(Box<ParamType>, usize),
    Array(Box<ParamType>),
    Tuple(Vec<ParamType>),
}

/// A decoded argument value, mirroring `ParamType`. Integer values keep
/// their full 32-byte big-endian word; string values keep their raw bytes.
pub enum DecodedValue {
    Address(Vec<u8>),
    Boolean(bool),
    Uint(Vec<u8>),
    Int(Vec<u8>),
    FixedBytes(Vec<u8>),
    Bytes(Vec<u8>),
    Text(Vec<u8>),
    FixedArray(Vec<DecodedValue>),
    Array(Vec<DecodedValue>),
    Tuple(Vec<DecodedValue>),
}

/// The mathematical model of a decoded value.
pub enum AbiVal {
    Address(Seq<u8>),
    Boolean(bool),
    Uint(Seq<u8>),
    Int(Seq<u8>),
    FixedBytes(Seq<u8>),
    Bytes(Seq<u8>),
    Text(Seq<u8>),
    FixedArray(Seq<AbiVal>),
    Array(Seq<AbiVal>),
    Tuple(Seq<AbiVal>),
}

pub open spec fn val_view(v: DecodedValue) -> AbiVal
    decreases v,
{
    match v {
        DecodedValue::Address(b) => AbiVal::Address(b@),
        DecodedValue::Boolean(x) => AbiVal::Boolean(x),
        DecodedValue::Uint(b) => AbiVal::Uint(b@),
        DecodedValue::Int(b) => AbiVal::Int(b@),
        DecodedValue::FixedBytes(b) => AbiVal::FixedBytes(b@),
        DecodedValue::Bytes(b) => AbiVal::Bytes(b@),
        DecodedValue::Text(b) => AbiVal::Text(b@),
        DecodedValue::FixedArray(vs) => AbiVal::FixedArray(vals_view(vs@)),
        DecodedValue::Array(vs) => AbiVal::Array(vals_view(vs@)),
        DecodedValue::Tuple(vs) => AbiVal::Tuple(vals_view(vs@)),
    }
}

pub open spec fn vals_view(s: Seq<DecodedValue>) -> Seq<AbiVal>
    decreases s,
{
    if s.len() == 0 {
        Seq::empty()
    } else {
        seq![val_view(s[0])] + vals_view(s.drop_first())
    }
}

impl View for DecodedValue {
    type V = AbiVal;

    open spec fn view(&self) -> AbiVal {
        val_view(*self)
    }
}

pub proof fn lemma_vals_view_index(s: Seq<DecodedValue>)
    ensures
        vals_view(s).len() == s.len(),
        forall|i: int| 0 <= i < s.len() ==> vals_view(s)[i] == val_view(s[i]),
    decreases s,
{
    if s.len() > 0 {
        lemma_vals_view_index(s.drop_first());
    }
}

/// Whether a type is well formed: bit widths are multiples of eight up to
/// 256, and fixed byte runs fit one 32-byte word.
pub open spec fn wf_ty(t: ParamType) -> bool
    decreases t, 0int,
{
    match t {
        ParamType::Uint(w) => 8 <= w <= 256 && w % 8 == 0,
        ParamType::Int(w) => 8 <= w <= 256 && w % 8 == 0,
        ParamType::FixedBytes(n) => 1 <= n <= 32,
        ParamType::FixedArray(t2, _) => wf_ty(*t2),
        ParamType::Array(t2) => wf_ty(*t2),
        ParamType::Tuple(ts) => wf_tys(ts@),
        _ => true,
    }
}

pub open spec fn wf_tys(ts: Seq<ParamType>) -> bool
    decreases ts, 0int,
{
    if ts.len() == 0 {
        true
    } else {
        wf_ty(ts[0]) && wf_tys(ts.drop_first())
    }
}

/// Whether a value has the shape required by a type.
pub open spec fn fits(v: AbiVal, t: ParamType) -> bool
    decreases t, 1int, 0int,
{
    match (v, t) {
        (AbiVal::Address(b), ParamType::Address) => b.len() == 20,
        (AbiVal::Boolean(_), ParamType::Boolean) => true,
        (AbiVal::Uint(w), ParamType::Uint(_)) => w.len() == 32,
        (AbiVal::Int(w), ParamType::Int(_)) => w.len() == 32,
        (AbiVal::FixedBytes(b), ParamType::FixedBytes(n)) => b.len() == n,
        (AbiVal::Bytes(_), ParamType::Bytes) => true,
        (AbiVal::Text(_), ParamType::Str) => true,
        (AbiVal::FixedArray(vs), ParamType::FixedArray(t2, n)) => vs.len() == n && fits_ulist(
            vs,
            *t2,
        ),
        (AbiVal::Array(vs), ParamType::Array(t2)) => fits_ulist(vs, *t2),
        (AbiVal::Tuple(vs), ParamType::Tuple(ts)) => fits_tlist(vs, ts@),
        _ => false,
    }
}

pub open spec fn fits_ulist(vs: Seq<AbiVal>, t2: ParamType) -> bool
    decreases t2, 2int, vs.len(),
{
    if vs.len() == 0 {
        true
    } else {
        fits(vs[0], t2) && fits_ulist(vs.drop_first(), t2)
    }
}

pub open spec fn fits_tlist(vs: Seq<AbiVal>, ts: Seq<ParamType>) -> bool
    decreases ts, 0int, 0int,
{
    if ts.len() != vs.len() {
        false
    } else if ts.len() == 0 {
        true
    } else {
        fits(vs[0], ts[0]) && fits_tlist(vs.drop_first(), ts.drop_first())
    }
}

/// Whether a type's encoding is placed behind an offset pointer.
pub open spec fn is_dynamic(t: ParamType) -> bool
    decreases t, 0int,
{
    match t {
        ParamType::Bytes => true,
        ParamType::Str => true,
        ParamType::Array(_) => true,
        ParamType::FixedArray(t2, _) => is_dynamic(*t2),
        ParamType::Tuple(ts) => any_dynamic(ts@),
        _ => false,
    }
}

pub open spec fn any_dynamic(ts: Seq<ParamType>) -> bool
    decreases ts, 0int,
{
    if ts.len() == 0 {
        false
    } else {
        is_dynamic(ts[0]) || any_dynamic(ts.drop_first())
    }
}

/// The in-place encoded size of a static type.
pub open spec fn static_size(t: ParamType) -> nat
    decreases t, 0int,
{
    match t {
        ParamType::FixedArray(t2, n) => (n as nat) * static_size(*t2),
        ParamType::Tuple(ts) => total_static(ts@),
        _ => 32,
    }
}

pub open spec fn total_static(ts: Seq<ParamType>) -> nat
    decreases ts, 0int,
{
    if ts.len() == 0 {
        0
    } else {
        static_size(ts[0]) + total_static(ts.drop_first())
    }
}

/// The size a type occupies in the head region of its enclosing block.
pub open spec fn head_size(t: ParamType) -> nat {
    if is_dynamic(t) {
        32
    } else {
        static_size(t)
    }
}

pub open spec fn heads_size(ts: Seq<ParamType>) -> nat
    decreases ts, 0int,
{
    if ts.len() == 0 {
        0
    } else {
        head_size(ts[0]) + heads_size(ts.drop_first())
    }
}

/// A run of `n` zero bytes.
pub open spec fn zeros(n: nat) -> Seq<u8> {
    Seq::new(n, |i: int| 0u8)
}

/// Padding needed to round `k` bytes up to a whole 32-byte word.
pub open spec fn pad32(k: nat) -> nat {
    ((32 - k % 32) % 32) as nat
}

/// The `k`-byte big-endian encoding of `n % 256^k`.
pub open spec fn wordk(n: nat, k: nat) -> Seq<u8>
    decreases k,
{
    if k == 0 {
        Seq::empty()
    } else {
        wordk(n / 256, (k - 1) as nat).push((n % 256) as u8)
    }
}

/// The 32-byte big-endian word for a length or offset.
pub open spec fn word32(n: nat) -> Seq<u8> {
    wordk(n, 32)
}

// ---------------------------------------------------------------------------
// Encoding: the standard head/tail layout. Static values sit in the head;
// dynamic values leave a 32-byte offset in the head, counted from the start
// of the enclosing block, and their data is appended to the tail region.
// ---------------------------------------------------------------------------

pub open spec fn enc(t: ParamType, v: AbiVal) -> Seq<u8>
    decreases t, 0int, 0int,
{
    match (t, v) {
        (ParamType::Address, AbiVal::Address(b)) => zeros(12) + b,
        (ParamType::Boolean, AbiVal::Boolean(x)) => word32(
            if x {
                1nat
            } else {
                0nat
            },
        ),
        (ParamType::Uint(_), AbiVal::Uint(w)) => w,
        (ParamType::Int(_), AbiVal::Int(w)) => w,
        (ParamType::FixedBytes(_), AbiVal::FixedBytes(b)) => b + zeros(pad32(b.len())),
        (ParamType::Bytes, AbiVal::Bytes(b)) => word32(b.len()) + b + zeros(pad32(b.len())),
        (ParamType::Str, AbiVal::Text(b)) => word32(b.len()) + b + zeros(pad32(b.len())),
        (ParamType::Array(t2), AbiVal::Array(vs)) => word32(vs.len()) + enc_ublock(*t2, vs),
        (ParamType::FixedArray(t2, _), AbiVal::FixedArray(vs)) => enc_ublock(*t2, vs),
        (ParamType::Tuple(ts), AbiVal::Tuple(vs)) => enc_tblock(ts@, vs),
        _ => Seq::empty(),
    }
}

/// The block encoding of a uniform element list.
pub open spec fn enc_ublock(t2: ParamType, vs: Seq<AbiVal>) -> Seq<u8>
    decreases t2, 2int, vs.len() + 1,
{
    if is_dynamic(t2) {
        enc_uheads(t2, vs, 32 * vs.len()) + enc_utails(t2, vs)
    } else {
        enc_utails(t2, vs)
    }
}

pub open spec fn enc_uheads(t2: ParamType, vs: Seq<AbiVal>, off: nat) -> Seq<u8>
    decreases t2, 2int, vs.len(),
{
    if vs.len() == 0 {
        Seq::empty()
    } else {
        word32(off) + enc_uheads(t2, vs.drop_first(), off + enc(t2, vs[0]).len())
    }
}

pub open spec fn enc_utails(t2: ParamType, vs: Seq<AbiVal>) -> Seq<u8>
    decreases t2, 2int, vs.len(),
{
    if vs.len() == 0 {
        Seq::empty()
    } else {
        enc(t2, vs[0]) + enc_utails(t2, vs.drop_first())
    }
}

/// The block encoding of a mixed member list.
pub open spec fn enc_tblock(ts: Seq<ParamType>, vs: Seq<AbiVal>) -> Seq<u8>
    decreases ts, 1int, 0int,
{
    enc_theads(ts, vs, heads_size(ts)) + enc_ttails(ts, vs)
}

pub open spec fn enc_theads(ts: Seq<ParamType>, vs: Seq<AbiVal>, off: nat) -> Seq<u8>
    decreases ts, 0int, 0int,
{
    if ts.len() == 0 || vs.len() == 0 {
        Seq::empty()
    } else if is_dynamic(ts[0]) {
        word32(off) + enc_theads(ts.drop_first(), vs.drop_first(), off + enc(ts[0], vs[0]).len())
    } else {
        enc(ts[0], vs[0]) + enc_theads(ts.drop_first(), vs.drop_first(), off)
    }
}

pub open spec fn enc_ttails(ts: Seq<ParamType>, vs: Seq<AbiVal>) -> Seq<u8>
    decreases ts, 0int, 0int,
{
    if ts.len() == 0 || vs.len() == 0 {
        Seq::empty()
    } else if is_dynamic(ts[0]) {
        enc(ts[0], vs[0]) + enc_ttails(ts.drop_first(), vs.drop_first())
    } else {
        enc_ttails(ts.drop_first(), vs.drop_first())
    }
}

// ---------------------------------------------------------------------------
// Decoding, over the whole buffer `s` with absolute positions. `base` is the
// start of the enclosing block, against which offset words are counted.
// Every bounds violation yields None.
// ---------------------------------------------------------------------------

pub open spec fn dec_static(t: ParamType, s: Seq<u8>, p: nat) -> Option<AbiVal>
    decreases t, 0int, 0int,
{
    match t {
        ParamType::Address => if p + 32 <= s.len() {
            Some(AbiVal::Address(s.subrange((p + 12) as int, (p + 32) as int)))
        } else {
            None
        },
        ParamType::Boolean => if p + 32 <= s.len() {
            Some(AbiVal::Boolean(s[(p + 31) as int] != 0))
        } else {
            None
        },
        ParamType::Uint(_) => if p + 32 <= s.len() {
            Some(AbiVal::Uint(s.subrange(p as int, (p + 32) as int)))
        } else {
            None
        },
        ParamType::Int(_) => if p + 32 <= s.len() {
            Some(AbiVal::Int(s.subrange(p as int, (p + 32) as int)))
        } else {
            None
        },
        ParamType::FixedBytes(n) => if p + 32 <= s.len() && n <= 32 {
            Some(AbiVal::FixedBytes(s.subrange(p as int, (p + n) as int)))
        } else {
            None
        },
        ParamType::FixedArray(t2, n) => match dec_slist(*t2, s, p, n as nat) {
            Some(vs) => Some(AbiVal::FixedArray(vs)),
            None => None,
        },
        ParamType::Tuple(ts) => match dec_stlist(ts@, s, p) {
            Some(vs) => Some(AbiVal::Tuple(vs)),
            None => None,
        },
        _ => None,
    }
}

pub open spec fn dec_slist(t2: ParamType, s: Seq<u8>, p: nat, n: nat) -> Option<Seq<AbiVal>>
    decreases t2, 2int, n,
{
    if n == 0 {
        Some(Seq::empty())
    } else {
        match dec_static(t2, s, p) {
            None => None,
            Some(v) => match dec_slist(t2, s, p + static_size(t2), (n - 1) as nat) {
                None => None,
                Some(r) => Some(seq![v] + r),
            },
        }
    }
}

pub open spec fn dec_stlist(ts: Seq<ParamType>, s: Seq<u8>, p: nat) -> Option<Seq<AbiVal>>
    decreases ts, 0int, 0int,
{
    if ts.len() == 0 {
        Some(Seq::empty())
    } else {
        match dec_static(ts[0], s, p) {
            None => None,
            Some(v) => match dec_stlist(ts.drop_first(), s, p + static_size(ts[0])) {
                None => None,
                Some(r) => Some(seq![v] + r),
            },
        }
    }
}

pub open spec fn dec_value(t: ParamType, s: Seq<u8>, p: nat) -> Option<AbiVal>
    decreases t, 1int, 0int,
{
    if !is_dynamic(t) {
        dec_static(t, s, p)
    } else {
        match t {
            ParamType::Bytes => match dec_byte_run(s, p) {
                Some(b) => Some(AbiVal::Bytes(b)),
                None => None,
            },
            ParamType::Str => match dec_byte_run(s, p) {
                Some(b) => Some(AbiVal::Text(b)),
                None => None,
            },
            ParamType::Array(t2) => if p + 32 <= s.len() {
                let n = be_nat(s.subrange(p as int, (p + 32) as int));
                if p + 32 + n * 32 <= s.len() {
                    match dec_ulist(*t2, s, p + 32, p + 32, n) {
                        Some(vs) => Some(AbiVal::Array(vs)),
                        None => None,
                    }
                } else {
                    None
                }
            } else {
                None
            },
            ParamType::FixedArray(t2, n) => if p + (n as nat) * 32 <= s.len() {
                match dec_ulist(*t2, s, p, p, n as nat) {
                    Some(vs) => Some(AbiVal::FixedArray(vs)),
                    None => None,
                }
            } else {
                None
            },
            ParamType::Tuple(ts) => match dec_tlist(ts@, s, p, p) {
                Some(vs) => Some(AbiVal::Tuple(vs)),
                None => None,
            },
            _ => None,
        }
    }
}

/// A length-prefixed byte run at `p`.
pub open spec fn dec_byte_run(s: Seq<u8>, p: nat) -> Option<Seq<u8>> {
    if p + 32 <= s.len() {
        let n = be_nat(s.subrange(p as int, (p + 32) as int));
        if p + 32 + n <= s.len() {
            Some(s.subrange((p + 32) as int, (p + 32 + n) as int))
        } else {
            None
        }
    } else {
        None
    }
}

pub open spec fn dec_ulist(t2: ParamType, s: Seq<u8>, base: nat, hp: nat, n: nat) -> Option<
    Seq<AbiVal>,
>
    decreases t2, 2int, n,
{
    if n == 0 {
        Some(Seq::empty())
    } else {
        let head = if is_dynamic(t2) {
            if hp + 32 <= s.len() {
                let off = be_nat(s.subrange(hp as int, (hp + 32) as int));
                if base + off <= s.len() {
                    dec_value(t2, s, base + off)
                } else {
                    None
                }
            } else {
                None
            }
        } else {
            dec_static(t2, s, hp)
        };
        match head {
            None => None,
            Some(v) => match dec_ulist(t2, s, base, hp + head_size(t2), (n - 1) as nat) {
                None => None,
                Some(r) => Some(seq![v] + r),
            },
        }
    }
}

pub open spec fn dec_tlist(ts: Seq<ParamType>, s: Seq<u8>, base: nat, hp: nat) -> Option<
    Seq<AbiVal>,
>
    decreases ts, 3int, 0int,
{
    if ts.len() == 0 {
        Some(Seq::empty())
    } else {
        let head = if is_dynamic(ts[0]) {
            if hp + 32 <= s.len() {
                let off = be_nat(s.subrange(hp as int, (hp + 32) as int));
                if base + off <= s.len() {
                    dec_value(ts[0], s, base + off)
                } else {
                    None
                }
            } else {
                None
            }
        } else {
            dec_static(ts[0], s, hp)
        };
        match head {
            None => None,
            Some(v) => match dec_tlist(ts.drop_first(), s, base, hp + head_size(ts[0])) {
                None => None,
                Some(r) => Some(seq![v] + r),
            },
        }
    }
}

/// Decoding of an argument block: the members of the parameter list, with
/// both the head region and the offset base at `p`.
pub open spec fn dec_args(ts: Seq<ParamType>, s: Seq<u8>, p: nat) -> Option<Seq<AbiVal>> {
    dec_tlist(ts, s, p, p)
}

/// A structural size of a type term, used as a recursion measure.
pub open spec fn ty_size(t: ParamType) -> nat
    decreases t,
{
    match t {
        ParamType::FixedArray(t2, _) => 1 + ty_size(*t2),
        ParamType::Array(t2) => 1 + ty_size(*t2),
        ParamType::Tuple(ts) => 1 + tys_size(ts@),
        _ => 1,
    }
}

pub open spec fn tys_size(ts: Seq<ParamType>) -> nat
    decreases ts,
{
    if ts.len() == 0 {
        0
    } else {
        ty_size(ts[0]) + tys_size(ts.drop_first())
    }
}

pub proof fn lemma_tys_size_elem(ts: Seq<ParamType>, i: int)
    requires
        0 <= i < ts.len(),
    ensures
        ty_size(ts[i]) <= tys_size(ts),
    decreases i,
{
    if i == 0 {
    } else {
        lemma_tys_size_elem(ts.drop_first(), i - 1);
    }
}

} // verus!
