use vstd::prelude::*;
use sha3::Digest;
use crate::abi::{ParamType, ty_size, tys_size, lemma_tys_size_elem};
use crate::numeric::{dec_str, word_from_u128, word_to_dec};

verus! {

broadcast use vstd::seq::group_seq_axioms, vstd::seq_lib::group_seq_lib_default, vstd::std_specs::vec::group_vec_axioms;

/// The first four bytes of the Keccak-256 digest of a signature string.
pub uninterp spec fn keccak4_of(s: Seq<char>) -> Seq<u8>;

/// Relies on sha3::Keccak256::digest: the digest depends on the input
/// bytes alone; the selector is its first four bytes.
#[verifier::external_body]
fn selector_hash(s: &str) -> (r: Vec<u8>)
    ensures
        r@ == keccak4_of(s@),
        r@.len() == 4,
{
    let d = sha3::Keccak256::digest(s.as_bytes());
    d[0..4].to_vec()
}

/// Renders `x` in decimal.
pub fn u64_to_dec(x: u64) -> (r: String)
    ensures
        r@ == dec_str(x as nat),
{
    let w = word_from_u128(x as u128);
    word_to_dec(&w)
}

/// The canonical name of a type inside a signature string.
pub open spec fn ty_name(t: ParamType) -> Seq<char>
    decreases t, 1int,
{
    match t {
        ParamType::Address => "address"@,
        ParamType::Boolean => "bool"@,
        ParamType::Uint(w) => "uint"@ + dec_str(w as nat),
        ParamType::Int(w) => "int"@ + dec_str(w as nat),
        ParamType::FixedBytes(n) => "bytes"@ + dec_str(n as nat),
        ParamType::Bytes => "bytes"@,
        ParamType::Str => "string"@,
        ParamType::FixedArray(t2, n) => ty_name(*t2) + "["@ + dec_str(n as nat) + "]"@,
        ParamType::Array(t2) => ty_name(*t2) + "[]"@,
        ParamType::Tuple(ts) => "("@ + ty_names(ts@) + ")"@,
    }
}

pub open spec fn ty_names(ts: Seq<ParamType>) -> Seq<char>
    decreases ts, 0int,
{
    if ts.len() == 0 {
        Seq::empty()
    } else {
        ty_name(ts[0]) + ty_names_rest(ts.drop_first())
    }
}

pub open spec fn ty_names_rest(ts: Seq<ParamType>) -> Seq<char>
    decreases ts, 1int,
{
    if ts.len() == 0 {
        Seq::empty()
    } else {
        ","@ + ty_name(ts[0]) + ty_names_rest(ts.drop_first())
    }
}

/// The canonical signature string: name, then the parenthesized,
/// comma-joined parameter type names.
pub open spec fn canon_sig(name: Seq<char>, ts: Seq<ParamType>) -> Seq<char> {
    name + "("@ + ty_names(ts) + ")"@
}

proof fn lemma_ty_names_take(ts: Seq<ParamType>, i: int)
    requires
        0 <= i < ts.len(),
    ensures
        ty_names(ts.take(i + 1)) == ty_names(ts.take(i)) + (if i == 0 {
            ty_name(ts[0])
        } else {
            ","@ + ty_name(ts[i])
        }),
    decreases i,
{
    if i == 0 {
        assert(ts.take(1)[0] == ts[0]);
        assert(ts.take(1).drop_first() =~= Seq::<ParamType>::empty());
        assert(ty_names_rest(Seq::<ParamType>::empty()) == Seq::<char>::empty());
        assert(ty_names(ts.take(0)) == Seq::<char>::empty());
        assert(ty_names(ts.take(1)) == ty_name(ts[0]) + Seq::<char>::empty());
        assert(ty_names(ts.take(1)) == ty_name(ts[0]));
        assert(Seq::<char>::empty() + ty_name(ts[0]) == ty_name(ts[0]));
    } else {
        lemma_ty_names_rest_take(ts.drop_first(), i - 1);
        assert(ts.take(i + 1)[0] == ts[0]);
        assert(ts.take(i)[0] == ts[0]);
        assert(ts.take(i + 1).drop_first() =~= ts.drop_first().take(i));
        assert(ts.take(i).drop_first() =~= ts.drop_first().take(i - 1));
        assert(ts.drop_first()[i - 1] == ts[i]);
        assert(ty_name(ts[0]) + (ty_names_rest(ts.drop_first().take(i - 1)) + (","@ + ty_name(
            ts[i],
        ))) == (ty_name(ts[0]) + ty_names_rest(ts.drop_first().take(i - 1))) + (","@ + ty_name(
            ts[i],
        )));
    }
}

proof fn lemma_ty_names_rest_take(ts: Seq<ParamType>, i: int)
    requires
        0 <= i < ts.len(),
    ensures
        ty_names_rest(ts.take(i + 1)) == ty_names_rest(ts.take(i)) + (","@ + ty_name(ts[i])),
    decreases i,
{
    if i == 0 {
        assert(ts.take(1)[0] == ts[0]);
        assert(ts.take(1).drop_first() =~= Seq::<ParamType>::empty());
        assert(ty_names_rest(Seq::<ParamType>::empty()) == Seq::<char>::empty());
        assert(ty_names_rest(ts.take(1)) == ","@ + ty_name(ts[0]) + Seq::<char>::empty());
        assert(","@ + ty_name(ts[0]) + Seq::<char>::empty() == ","@ + ty_name(ts[0]));
        assert(Seq::<char>::empty() + (","@ + ty_name(ts[0])) == ","@ + ty_name(ts[0]));
    } else {
        lemma_ty_names_rest_take(ts.drop_first(), i - 1);
        assert(ts.take(i + 1)[0] == ts[0]);
        assert(ts.take(i)[0] == ts[0]);
        assert(ts.take(i + 1).drop_first() =~= ts.drop_first().take(i));
        assert(ts.take(i).drop_first() =~= ts.drop_first().take(i - 1));
        assert(ts.drop_first()[i - 1] == ts[i]);
        let a = ","@ + ty_name(ts[0]);
        let b = ty_names_rest(ts.drop_first().take(i - 1));
        let c = ","@ + ty_name(ts[i]);
        assert(a + (b + c) == (a + b) + c);
    }
}

/// Renders the canonical name of a type.
pub fn ty_name_x(t: &ParamType) -> (r: String)
    ensures
        r@ == ty_name(*t),
    decreases ty_size(*t), 2int,
{
    match t {
        ParamType::Address => "address".to_owned(),
        ParamType::Boolean => "bool".to_owned(),
        ParamType::Uint(w) => {
            let mut s: String = "uint".to_owned();
            let d = u64_to_dec(*w as u64);
            s.append(d.as_str());
            s
        },
        ParamType::Int(w) => {
            let mut s: String = "int".to_owned();
            let d = u64_to_dec(*w as u64);
            s.append(d.as_str());
            s
        },
        ParamType::FixedBytes(n) => {
            let mut s: String = "bytes".to_owned();
            let d = u64_to_dec(*n as u64);
            s.append(d.as_str());
            s
        },
        ParamType::Bytes => "bytes".to_owned(),
        ParamType::Str => "string".to_owned(),
        ParamType::FixedArray(t2, n) => {
            let mut s = ty_name_x(&**t2);
            s.append("[");
            let d = u64_to_dec(*n as u64);
            s.append(d.as_str());
            s.append("]");
            s
        },
        ParamType::Array(t2) => {
            let mut s = ty_name_x(&**t2);
            s.append("[]");
            s
        },
        ParamType::Tuple(ts) => {
            let mut s: String = "(".to_owned();
            let mut i: usize = 0;
            proof {
                assert(ts@.take(0) =~= Seq::<ParamType>::empty());
            }
            while i < ts.len()
                invariant
                    0 <= i <= ts@.len(),
                    ty_size(*t) == 1 + tys_size(ts@),
                    ty_name(*t) == "("@ + ty_names(ts@) + ")"@,
                    s@ == "("@ + ty_names(ts@.take(i as int)),
                decreases ts@.len() - i,
            {
                proof {
                    lemma_tys_size_elem(ts@, i as int);
                }
                if i > 0 {
                    s.append(",");
                }
                let e = ty_name_x(&ts[i]);
                s.append(e.as_str());
                proof {
                    lemma_ty_names_take(ts@, i as int);
                    if i == 0 {
                        assert(s@ == ("("@ + Seq::<char>::empty()) + ty_name(ts@[0]));
                        assert(("("@ + Seq::<char>::empty()) + ty_name(ts@[0]) =~= "("@ + (
                        Seq::<char>::empty() + ty_name(ts@[0])));
                    } else {
                        assert(s@ =~= "("@ + (ty_names(ts@.take(i as int)) + (","@ + ty_name(
                            ts@[i as int],
                        ))));
                    }
                }
                i += 1;
            }
            proof {
                assert(ts@.take(ts@.len() as int) =~= ts@);
            }
            s.append(")");
            proof {
                assert(("("@ + ty_names(ts@)) + ")"@ =~= "("@ + ty_names(ts@) + ")"@);
            }
            s
        },
    }
}

/// A named, typed parameter of a contract function.
pub struct Param {
    pub name: String,
    pub kind: ParamType,
}

/// A function's name and ordered parameter list.
pub struct FunctionSignature {
    pub name: String,
    pub inputs: Vec<Param>,
}

/// The mathematical model of a signature.
pub struct SigV {
    pub name: Seq<char>,
    pub pnames: Seq<Seq<char>>,
    pub ptypes: Seq<ParamType>,
}

pub open spec fn sig_view(s: FunctionSignature) -> SigV {
    SigV {
        name: s.name@,
        pnames: s.inputs@.map_values(|p: Param| p.name@),
        ptypes: s.inputs@.map_values(|p: Param| p.kind),
    }
}

impl View for FunctionSignature {
    type V = SigV;

    open spec fn view(&self) -> SigV {
        sig_view(*self)
    }
}

pub(crate) struct RegEntry {
    pub selector: Vec<u8>,
    pub fname: String,
    pub pnames: Vec<String>,
    pub ptypes: Vec<ParamType>,
}

pub(crate) open spec fn entry_view(e: RegEntry) -> (Seq<u8>, SigV) {
    (
        e.selector@,
        SigV {
            name: e.fname@,
            pnames: e.pnames@.map_values(|s: String| s@),
            ptypes: e.ptypes@,
        },
    )
}

/// An index from four-byte selectors to function signatures, in
/// registration order.
pub struct FunctionRegistry {
    pub(crate) entries: Vec<RegEntry>,
}

impl View for FunctionRegistry {
    type V = Seq<(Seq<u8>, SigV)>;

    closed spec fn view(&self) -> Seq<(Seq<u8>, SigV)> {
        self.entries@.map_values(|e: RegEntry| entry_view(e))
    }
}

/// The first registered signature whose selector equals `sel`.
pub open spec fn resolve_sig(rv: Seq<(Seq<u8>, SigV)>, sel: Seq<u8>) -> Option<SigV>
    decreases rv.len(),
{
    if rv.len() == 0 {
        None
    } else if rv[0].0 == sel {
        Some(rv[0].1)
    } else {
        resolve_sig(rv.drop_first(), sel)
    }
}

pub proof fn lemma_resolve_first(rv: Seq<(Seq<u8>, SigV)>, sel: Seq<u8>, i: int)
    requires
        0 <= i < rv.len(),
        rv[i].0 == sel,
        forall|j: int| 0 <= j < i ==> rv[j].0 != sel,
    ensures
        resolve_sig(rv, sel) == Some(rv[i].1),
    decreases i,
{
    if i > 0 {
        lemma_resolve_first(rv.drop_first(), sel, i - 1);
    }
}

pub proof fn lemma_resolve_none(rv: Seq<(Seq<u8>, SigV)>, sel: Seq<u8>)
    requires
        forall|j: int| 0 <= j < rv.len() ==> rv[j].0 != sel,
    ensures
        resolve_sig(rv, sel) is None,
    decreases rv.len(),
{
    if rv.len() > 0 {
        lemma_resolve_none(rv.drop_first(), sel);
    }
}

impl FunctionRegistry {
    /// Every selector is the four-byte hash of its signature's canonical
    /// string, and parameter names pair off with parameter types.
    pub closed spec fn wf(&self) -> bool {
        forall|i: int|
            0 <= i < self@.len() ==> {
                &&& (#[trigger] self@[i]).0.len() == 4
                &&& self@[i].0 == keccak4_of(
                    canon_sig(self@[i].1.name, self@[i].1.ptypes),
                )
                &&& self@[i].1.pnames.len() == self@[i].1.ptypes.len()
            }
    }

    /// What well-formedness gives for one entry.
    pub proof fn wf_entry(&self, i: int)
        requires
            self.wf(),
            0 <= i < self@.len(),
        ensures
            self@[i].0.len() == 4,
            self@[i].0 == keccak4_of(canon_sig(self@[i].1.name, self@[i].1.ptypes)),
            self@[i].1.pnames.len() == self@[i].1.ptypes.len(),
    {
    }

    /// Builds the selector index from interface definitions, keeping
    /// registration order.
    pub fn load(defs: Vec<FunctionSignature>) -> (r: FunctionRegistry)
        ensures
            r.wf(),
            r@.len() == defs@.len(),
            forall|i: int| 0 <= i < defs@.len() ==> (#[trigger] r@[i]).1 == defs@[i]@ && r@[i].0
                == keccak4_of(canon_sig(defs@[i]@.name, defs@[i]@.ptypes)),
    {
        let mut entries: Vec<RegEntry> = Vec::new();
        let mut defs = defs;
        let ghost orig = defs@;
        let ghost mut taken: int = 0;
        while defs.len() > 0
            invariant
                0 <= taken,
                taken + defs@.len() == orig.len(),
                defs@ =~= orig.skip(taken),
                entries@.len() == taken,
                forall|i: int| 0 <= i < taken ==> {
                    &&& (#[trigger] entries@[i]).selector@.len() == 4
                    &&& entries@[i].selector@ == keccak4_of(
                        canon_sig(orig[i]@.name, orig[i]@.ptypes),
                    )
                    &&& entry_view(entries@[i]).1 == orig[i]@
                },
            decreases defs@.len(),
        {
            let d: FunctionSignature = defs.remove(0);
            let ghost dv = d@;
            let ghost inv0 = d.inputs@;
            let FunctionSignature { name: fname, inputs } = d;
            let mut inputs = inputs;
            proof {
                assert(inputs@ == inv0);
                assert(dv.ptypes == inv0.map_values(|p: Param| p.kind));
                assert(dv.pnames == inv0.map_values(|p: Param| p.name@));
            }
            let mut pnames: Vec<String> = Vec::new();
            let mut ptypes: Vec<ParamType> = Vec::new();
            while inputs.len() > 0
                invariant
                    pnames@.len() == ptypes@.len(),
                    pnames@.len() + inputs@.len() == inv0.len(),
                    inputs@ =~= inv0.skip(pnames@.len() as int),
                    forall|j: int| 0 <= j < pnames@.len() ==> (#[trigger] pnames@[j])@ == inv0[j].name@
                        && ptypes@[j] == inv0[j].kind,
                decreases inputs@.len(),
            {
                let p: Param = inputs.remove(0);
                let Param { name: pn, kind: pk } = p;
                pnames.push(pn);
                ptypes.push(pk);
            }
            proof {
                assert(pnames@.len() == inv0.len());
                assert forall|j: int| 0 <= j < inv0.len() implies (#[trigger] ptypes@[j])
                    == inv0[j].kind && pnames@[j]@ == inv0[j].name@ by {
                    assert(pnames@[j]@ == inv0[j].name@);
                }
                assert(dv.pnames =~= pnames@.map_values(|s: String| s@));
                assert(dv.ptypes =~= ptypes@);
            }
            let mut canon: String = fname.clone();
            canon.append("(");
            let mut i: usize = 0;
            proof {
                assert(ptypes@.take(0) =~= Seq::<ParamType>::empty());
            }
            while i < ptypes.len()
                invariant
                    0 <= i <= ptypes@.len(),
                    canon@ == fname@ + "("@ + ty_names(ptypes@.take(i as int)),
                decreases ptypes@.len() - i,
            {
                if i > 0 {
                    canon.append(",");
                }
                let e = ty_name_x(&ptypes[i]);
                canon.append(e.as_str());
                proof {
                    lemma_ty_names_take(ptypes@, i as int);
                    if i == 0 {
                        assert(canon@ =~= fname@ + "("@ + (Seq::<char>::empty() + ty_name(
                            ptypes@[0],
                        )));
                    } else {
                        assert(canon@ =~= fname@ + "("@ + (ty_names(ptypes@.take(i as int)) + (
                        ","@ + ty_name(ptypes@[i as int]))));
                    }
                }
                i += 1;
            }
            proof {
                assert(ptypes@.take(ptypes@.len() as int) =~= ptypes@);
            }
            canon.append(")");
            proof {
                assert(canon@ =~= canon_sig(dv.name, dv.ptypes));
            }
            let sel: Vec<u8> = selector_hash(canon.as_str());
            entries.push(RegEntry { selector: sel, fname, pnames, ptypes });
            proof {
                taken = taken + 1;
                assert(orig[taken - 1]@ == dv);
                assert(entry_view(entries@[taken - 1]).1 == dv);
            }
        }
        let r = FunctionRegistry { entries };
        proof {
            let m = r.entries@.map_values(|e: RegEntry| entry_view(e));
            assert(forall|i: int| 0 <= i < m.len() ==> (#[trigger] m[i]) == entry_view(
                r.entries@[i],
            ));
            assert(forall|i: int| 0 <= i < orig.len() ==> (#[trigger] orig[i]@.pnames.len())
                == orig[i]@.ptypes.len());
        }
        r
    }

    /// The registered name of the signature at `i`.
    pub fn name_at(&self, i: usize) -> (r: &String)
        requires
            i < self@.len(),
        ensures
            r@ == self@[i as int].1.name,
    {
        &self.entries[i].fname
    }

    /// The parameter types of the signature at `i`.
    pub fn types_at(&self, i: usize) -> (r: &Vec<ParamType>)
        requires
            i < self@.len(),
        ensures
            r@ == self@[i as int].1.ptypes,
    {
        &self.entries[i].ptypes
    }

    /// The parameter names of the signature at `i`.
    pub fn pnames_at(&self, i: usize) -> (r: &Vec<String>)
        requires
            i < self@.len(),
        ensures
            r@.map_values(|s: String| s@) == self@[i as int].1.pnames,
    {
        &self.entries[i].pnames
    }

    /// The position of the first entry whose selector matches.
    pub fn resolve_index(&self, sel: &Vec<u8>) -> (r: Option<usize>)
        ensures
            match r {
                Some(i) => i < self@.len() && self@[i as int].0 == sel@ && (forall|j: int|
                    0 <= j < i as int ==> (#[trigger] self@[j]).0 != sel@) && resolve_sig(
                    self@,
                    sel@,
                ) == Some(self@[i as int].1),
                None => resolve_sig(self@, sel@) is None,
            },
    {
        let mut i: usize = 0;
        while i < self.entries.len()
            invariant
                0 <= i <= self.entries@.len(),
                self@.len() == self.entries@.len(),
                forall|j: int| 0 <= j < self@.len() ==> (#[trigger] self@[j]).0 == self.entries@[j].selector@,
                forall|j: int| 0 <= j < i as int ==> (#[trigger] self@[j]).0 != sel@,
            decreases self.entries@.len() - i,
        {
            if crate::abi_exec::bytes_eq(&self.entries[i].selector, sel) {
                proof {
                    lemma_resolve_first(self@, sel@, i as int);
                }
                return Some(i);
            }
            i += 1;
        }
        proof {
            lemma_resolve_none(self@, sel@);
        }
        None
    }

    /// How many signatures are registered.
    pub fn len(&self) -> (r: usize)
        ensures
            r == self@.len(),
    {
        self.entries.len()
    }
}

} // verus!
