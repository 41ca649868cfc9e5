use vstd::prelude::*;
use vstd::arithmetic::div_mod::lemma_fundamental_div_mod_converse;

verus! {

/// The unsigned integer that a big-endian byte string denotes.
pub open spec fn be_nat(s: Seq<u8>) -> nat
    decreases s.len(),
{
    if s.len() == 0 {
        0
    } else {
        be_nat(s.drop_last()) * 256 + s.last() as nat
    }
}

/// The decimal digit character for `d % 10`.
pub open spec fn digit_char(d: nat) -> char {
    ((48 + (d % 10)) as u8) as char
}

/// Decimal digits of `n`, most significant first; empty for zero.
pub open spec fn dec_pos(n: nat) -> Seq<char>
    decreases n,
{
    if n == 0 {
        Seq::empty()
    } else {
        dec_pos(n / 10).push(digit_char(n % 10))
    }
}

/// Decimal rendering of `n`, with "0" for zero.
pub open spec fn dec_str(n: nat) -> Seq<char> {
    if n == 0 {
        seq!['0']
    } else {
        dec_pos(n)
    }
}

pub proof fn lemma_be_nat_zero(s: Seq<u8>)
    requires
        forall|i: int| 0 <= i < s.len() ==> s[i] == 0u8,
    ensures
        be_nat(s) == 0,
    decreases s.len(),
{
    if s.len() > 0 {
        lemma_be_nat_zero(s.drop_last());
    }
}

pub proof fn lemma_be_nat_take_step(s: Seq<u8>, i: int)
    requires
        0 <= i < s.len(),
    ensures
        be_nat(s.take(i + 1)) == be_nat(s.take(i)) * 256 + s[i],
{
    assert(s.take(i + 1).drop_last() =~= s.take(i));
    assert(s.take(i + 1).last() == s[i]);
}

pub fn word_is_zero(w: &Vec<u8>) -> (r: bool)
    ensures
        r == (be_nat(w@) == 0),
{
    let mut i: usize = 0;
    let mut all: bool = true;
    while i < w.len()
        invariant
            0 <= i <= w@.len(),
            all == (forall|j: int| 0 <= j < i ==> w@[j] == 0u8),
        decreases w@.len() - i,
    {
        if w[i] != 0u8 {
            all = false;
        }
        i += 1;
    }
    proof {
        if all {
            lemma_be_nat_zero(w@);
        } else {
            let j = choose|j: int| 0 <= j < w@.len() && w@[j] != 0u8;
            lemma_be_nat_nonzero(w@, j);
        }
    }
    all
}

pub proof fn lemma_be_nat_nonzero(s: Seq<u8>, j: int)
    requires
        0 <= j < s.len(),
        s[j] != 0u8,
    ensures
        be_nat(s) > 0,
    decreases s.len(),
{
    if j == s.len() - 1 {
        assert(be_nat(s) == be_nat(s.drop_last()) * 256 + s.last());
    } else {
        lemma_be_nat_nonzero(s.drop_last(), j);
        assert(be_nat(s) == be_nat(s.drop_last()) * 256 + s.last());
    }
}

/// Divides a big-endian byte string by ten in place, returning the remainder.
fn div_mod_ten(w: &mut Vec<u8>) -> (r: u8)
    ensures
        final(w)@.len() == old(w)@.len(),
        be_nat(final(w)@) == be_nat(old(w)@) / 10,
        r == be_nat(old(w)@) % 10,
        r < 10,
{
    let ghost orig = w@;
    let mut carry: u32 = 0;
    let mut i: usize = 0;
    while i < w.len()
        invariant
            0 <= i <= w@.len(),
            w@.len() == orig.len(),
            carry < 10,
            forall|j: int| i <= j < orig.len() ==> w@[j] == orig[j],
            be_nat(orig.take(i as int)) == be_nat(w@.take(i as int)) * 10 + carry,
        decreases w@.len() - i,
    {
        let ghost prev = w@;
        let ghost pc = carry as nat;
        let t: u32 = carry * 256 + (w[i] as u32);
        let q: u32 = t / 10;
        let b: u8 = q as u8;
        let idx: usize = i;
        w.set(idx, b);
        carry = t % 10;
        proof {
            lemma_be_nat_take_step(orig, i as int);
            lemma_be_nat_take_step(w@, i as int);
            assert(w@.take(i as int) =~= prev.take(i as int));
            let a = be_nat(prev.take(i as int));
            let tn = t as nat;
            let ob = orig[i as int] as nat;
            assert(orig[i as int] == prev[i as int]);
            assert(tn == pc * 256 + ob);
            assert(tn == 10 * (tn / 10) + tn % 10) by {
                vstd::arithmetic::div_mod::lemma_fundamental_div_mod(t as int, 10);
            }
            assert(b == tn / 10);
            assert(be_nat(orig.take(i + 1)) == be_nat(orig.take(i as int)) * 256 + ob);
            assert(be_nat(orig.take(i as int)) == a * 10 + pc);
            assert(be_nat(w@.take(i + 1)) == a * 256 + b);
            assert((a * 10 + pc) * 256 == a * 10 * 256 + pc * 256) by (nonlinear_arith);
            assert(a * 10 * 256 + pc * 256 + ob == 10 * (a * 256) + (pc * 256 + ob))
                by (nonlinear_arith);
            assert(be_nat(orig.take(i + 1)) == 10 * (a * 256) + tn);
            assert(be_nat(orig.take(i + 1)) == 10 * (a * 256) + 10 * (tn / 10) + tn % 10);
            assert(10 * (a * 256) + 10 * (tn / 10) == 10 * (a * 256 + tn / 10))
                by (nonlinear_arith);
            assert(be_nat(orig.take(i + 1)) == be_nat(w@.take(i + 1)) * 10 + tn % 10);
        }
        i += 1;
    }
    proof {
        assert(orig.take(orig.len() as int) =~= orig);
        assert(w@.take(orig.len() as int) =~= w@);
        lemma_fundamental_div_mod_converse(
            be_nat(orig) as int,
            10,
            be_nat(w@) as int,
            carry as int,
        );
    }
    carry as u8
}

/// Relies on String::push: appends exactly the given character.
#[verifier::external_body]
pub(crate) fn push_char(s: &mut String, c: char)
    ensures
        final(s)@ == old(s)@.push(c),
{
    s.push(c);
}

/// Renders the unsigned integer held in a big-endian byte string in decimal.
pub fn word_to_dec(w: &Vec<u8>) -> (r: String)
    ensures
        r@ == dec_str(be_nat(w@)),
{
    let ghost n = be_nat(w@);
    let mut cur: Vec<u8> = w.clone();
    let mut digits: Vec<char> = Vec::new();
    assert(dec_pos(n) =~= dec_pos(be_nat(cur@)) + digits@.reverse());
    while !word_is_zero(&cur)
        invariant
            dec_pos(n) =~= dec_pos(be_nat(cur@)) + digits@.reverse(),
        decreases be_nat(cur@),
    {
        let ghost before = be_nat(cur@);
        let ghost dg = digits@;
        let d: u8 = div_mod_ten(&mut cur);
        let c: char = (48 + d) as char;
        digits.push(c);
        proof {
            assert(c == digit_char(before % 10));
            assert(dec_pos(before) == dec_pos(before / 10).push(digit_char(before % 10)));
            assert(dg.push(c).reverse() =~= seq![c] + dg.reverse());
            assert(dec_pos(before / 10).push(c) + dg.reverse() =~= dec_pos(before / 10) + (
            seq![c] + dg.reverse()));
            assert(be_nat(cur@) < before) by {
                vstd::arithmetic::div_mod::lemma_div_decreases(before as int, 10);
            }
        }
    }
    assert(dec_pos(n) =~= digits@.reverse());
    let mut s: String = String::new();
    if digits.len() == 0 {
        push_char(&mut s, '0');
        assert(n == 0);
        assert(s@ =~= dec_str(n));
        return s;
    }
    let mut i: usize = 0;
    while i < digits.len()
        invariant
            0 <= i <= digits@.len(),
            digits@.len() > 0,
            dec_pos(n) =~= digits@.reverse(),
            s@ =~= digits@.reverse().take(i as int),
        decreases digits@.len() - i,
    {
        let c: char = digits[digits.len() - 1 - i];
        push_char(&mut s, c);
        proof {
            assert(digits@.reverse()[i as int] == digits@[digits@.len() - 1 - i]);
            assert(digits@.reverse().take(i + 1) =~= digits@.reverse().take(i as int).push(
                digits@.reverse()[i as int],
            ));
        }
        i += 1;
    }
    proof {
        assert(s@ =~= digits@.reverse());
        assert(n != 0);
    }
    s
}

/// 256 to the power `n`.
pub open spec fn pow256(n: nat) -> nat
    decreases n,
{
    if n == 0 {
        1nat
    } else {
        256 * pow256((n - 1) as nat)
    }
}

pub proof fn lemma_be_nat_prepend(b: u8, t: Seq<u8>)
    ensures
        be_nat(seq![b] + t) == b * pow256(t.len()) + be_nat(t),
    decreases t.len(),
{
    if t.len() == 0 {
        assert(seq![b] + t =~= seq![b]);
        assert(be_nat(seq![b]) == be_nat(seq![b].drop_last()) * 256 + b);
        assert(seq![b].drop_last() =~= Seq::<u8>::empty());
        assert(be_nat(seq![b].drop_last()) == 0);
        assert(be_nat(t) == 0);
        assert(pow256(t.len()) == 1);
    } else {
        let s = seq![b] + t;
        assert(s.drop_last() =~= seq![b] + t.drop_last());
        lemma_be_nat_prepend(b, t.drop_last());
        let p = pow256((t.len() - 1) as nat);
        let q = be_nat(t.drop_last());
        let bn = b as nat;
        assert(be_nat(s) == (bn * p + q) * 256 + t.last());
        assert((bn * p + q) * 256 == bn * p * 256 + q * 256) by (nonlinear_arith);
        assert(bn * p * 256 == bn * (256 * p)) by (nonlinear_arith);
        assert(pow256(t.len()) == 256 * p);
        assert(be_nat(t) == q * 256 + t.last());
    }
}

pub proof fn lemma_be_nat_leading_zeros(z: Seq<u8>, t: Seq<u8>)
    requires
        forall|i: int| 0 <= i < z.len() ==> z[i] == 0u8,
    ensures
        be_nat(z + t) == be_nat(t),
    decreases t.len(),
{
    if t.len() == 0 {
        assert(z + t =~= z);
        lemma_be_nat_zero(z);
    } else {
        assert((z + t).drop_last() =~= z + t.drop_last());
        lemma_be_nat_leading_zeros(z, t.drop_last());
        assert(be_nat(z + t) == be_nat(z + t.drop_last()) * 256 + t.last());
    }
}

/// Builds the 32-byte big-endian word that denotes the given integer.
pub fn word_from_u128(x: u128) -> (r: Vec<u8>)
    ensures
        r@.len() == 32,
        be_nat(r@) == x,
{
    let mut tmp: Vec<u8> = Vec::new();
    let mut cur: u128 = x;
    let mut i: usize = 0;
    proof {
        reveal_with_fuel(pow256, 17);
        assert(pow256(16) == 0x100000000000000000000000000000000);
        assert(tmp@.reverse() =~= Seq::<u8>::empty());
        assert(be_nat(tmp@.reverse()) == 0);
        assert(pow256(0) == 1);
        assert((cur as nat) * 1 == cur as nat);
    }
    while i < 16
        invariant
            0 <= i <= 16,
            tmp@.len() == i,
            be_nat(tmp@.reverse()) + (cur as nat) * pow256(i as nat) == x,
            (cur as nat) < pow256((16 - i) as nat),
        decreases 16 - i,
    {
        let ghost prev = tmp@;
        let ghost pc = cur as nat;
        let b: u8 = (cur % 256) as u8;
        cur = cur / 256;
        tmp.push(b);
        proof {
            assert(tmp@.reverse() =~= seq![b] + prev.reverse());
            lemma_be_nat_prepend(b, prev.reverse());
            vstd::arithmetic::div_mod::lemma_fundamental_div_mod(pc as int, 256);
            let p = pow256(i as nat);
            let p1 = pow256((i + 1) as nat);
            let pr = pow256((16 - i - 1) as nat);
            let cn = cur as nat;
            let bn = b as nat;
            assert(p1 == 256 * p);
            assert(cn * p1 == (cn * 256) * p) by (nonlinear_arith)
                requires
                    p1 == 256 * p,
            ;
            assert(bn * p + (cn * 256) * p == (bn + cn * 256) * p) by (nonlinear_arith);
            assert(bn + cn * 256 == pc);
            assert(pow256((16 - i) as nat) == 256 * pr);
            assert(cn < pr) by (nonlinear_arith)
                requires
                    cn == pc / 256,
                    pc < 256 * pr,
            ;
        }
        i += 1;
    }
    let mut r: Vec<u8> = Vec::new();
    let mut k: usize = 0;
    while k < 16
        invariant
            0 <= k <= 16,
            r@.len() == k,
            forall|j: int| 0 <= j < k ==> r@[j] == 0u8,
        decreases 16 - k,
    {
        r.push(0u8);
        k += 1;
    }
    let ghost zeros = r@;
    let mut m: usize = 0;
    while m < 16
        invariant
            0 <= m <= 16,
            tmp@.len() == 16,
            r@ =~= zeros + tmp@.reverse().take(m as int),
            zeros.len() == 16,
            forall|j: int| 0 <= j < 16 ==> zeros[j] == 0u8,
        decreases 16 - m,
    {
        let b: u8 = tmp[15 - m];
        r.push(b);
        proof {
            assert(tmp@.reverse()[m as int] == tmp@[15 - m as int]);
            assert(tmp@.reverse().take(m + 1) =~= tmp@.reverse().take(m as int).push(
                tmp@.reverse()[m as int],
            ));
        }
        m += 1;
    }
    proof {
        assert(tmp@.reverse().take(16) =~= tmp@.reverse());
        lemma_be_nat_leading_zeros(zeros, tmp@.reverse());
        assert(pow256(0) == 1);
    }
    r
}

pub proof fn lemma_pow256_pos(n: nat)
    ensures
        pow256(n) >= 1,
    decreases n,
{
    if n > 0 {
        lemma_pow256_pos((n - 1) as nat);
    }
}

pub proof fn lemma_be_nat_bound(s: Seq<u8>)
    ensures
        be_nat(s) < pow256(s.len()),
    decreases s.len(),
{
    if s.len() == 0 {
    } else {
        lemma_be_nat_bound(s.drop_last());
        let q = be_nat(s.drop_last());
        let p = pow256((s.len() - 1) as nat);
        assert(be_nat(s) == q * 256 + s.last());
        assert(pow256(s.len()) == 256 * p);
        assert(q * 256 <= (p - 1) * 256) by (nonlinear_arith)
            requires
                q <= p - 1,
        ;
    }
}

} // verus!
