//! Random linear combination: compressing a tuple of values into one value
//! with a challenge scalar, as `v_0 + v_1 r + v_2 r^2 + ...`, built in
//! Horner form from the rear.

use vstd::prelude::*;
use crate::expr::Expr;
use crate::field::{fadd, fmul, freduce, Fp};

verus! {

/// The RLC of a sequence of expressions with randomness `r`, in Horner
/// form: the empty combination is 0, and otherwise
/// `rlc([v0, rest], r) = rlc(rest, r) * r + v0`.
pub open spec fn rlc_expr_spec(vs: Seq<Expr>, r: Expr) -> Expr
    decreases vs.len(),
{
    if vs.len() == 0 {
        Expr::Const(Fp { v: 0 })
    } else if vs.len() == 1 {
        vs[0]
    } else {
        Expr::Sum(
            Box::new(Expr::Product(Box::new(rlc_expr_spec(vs.drop_first(), r)), Box::new(r))),
            Box::new(vs[0]),
        )
    }
}

/// The value-level RLC over canonical residues, in the same Horner form.
pub open spec fn rlc_value_spec(vals: Seq<int>, r: int) -> int
    decreases vals.len(),
{
    if vals.len() == 0 {
        0
    } else if vals.len() == 1 {
        freduce(vals[0])
    } else {
        fadd(fmul(rlc_value_spec(vals.drop_first(), r), r), vals[0])
    }
}

/// Builds the RLC expression of `values` with randomness `r`.
pub fn rlc_expr(values: &Vec<Expr>, r: &Expr) -> (res: Expr)
    ensures
        res == rlc_expr_spec(values@, *r),
{
    let n = values.len();
    if n == 0 {
        return Expr::constant(0);
    }
    let mut acc: Expr = values[n - 1].clone();
    let mut i: usize = n - 1;
    while i > 0
        invariant
            0 <= i < n,
            n == values@.len(),
            acc == rlc_expr_spec(values@.subrange(i as int, n as int), *r),
        decreases i,
    {
        proof {
            let cur = values@.subrange(i - 1, n as int);
            let rest = values@.subrange(i as int, n as int);
            assert(cur.drop_first() =~= rest);
            assert(cur[0] == values@[i - 1]);
        }
        acc = Expr::sum(Expr::product(acc, r.clone()), values[i - 1].clone());
        i = i - 1;
    }
    proof {
        assert(values@.subrange(0, n as int) =~= values@);
    }
    acc
}

/// The sequence of canonical residues of a byte sequence.
pub open spec fn bytes_as_residues(s: Seq<u8>) -> Seq<int> {
    s.map_values(|b: u8| b as int)
}

/// The value-level RLC of a byte string.
pub fn rlc_value_bytes(bytes: &Vec<u8>, r: Fp) -> (res: Fp)
    ensures
        res.v == rlc_value_spec(bytes_as_residues(bytes@), r.v as int),
        res.reduced(),
{
    let n = bytes.len();
    if n == 0 {
        return Fp::zero();
    }
    let mut acc: Fp = Fp::new(bytes[n - 1] as u64);
    proof {
        let single = bytes_as_residues(bytes@.subrange(n - 1, n as int));
        assert(single.len() == 1);
        assert(single[0] == bytes@[n - 1] as int);
        assert(freduce(bytes@[n - 1] as int) == bytes@[n - 1] as int);
    }
    let mut i: usize = n - 1;
    while i > 0
        invariant
            0 <= i < n,
            n == bytes@.len(),
            acc.reduced(),
            acc.v == rlc_value_spec(
                bytes_as_residues(bytes@.subrange(i as int, n as int)),
                r.v as int,
            ),
        decreases i,
    {
        proof {
            let cur = bytes_as_residues(bytes@.subrange(i - 1, n as int));
            let rest = bytes_as_residues(bytes@.subrange(i as int, n as int));
            assert(cur.drop_first() =~= rest);
            assert(cur[0] == bytes@[i - 1] as int);
            assert(fadd(fmul(acc.v as int, r.v as int), bytes@[i - 1] as int) == fadd(
                fmul(acc.v as int, r.v as int),
                (Fp { v: bytes@[i - 1] as u64 }).v as int,
            ));
        }
        acc = acc.mul(r).add(Fp::new(bytes[i - 1] as u64));
        i = i - 1;
    }
    proof {
        assert(bytes@.subrange(0, n as int) =~= bytes@);
    }
    acc
}

/// Reverses a byte vector.
pub fn reverse_bytes(bytes: &Vec<u8>) -> (res: Vec<u8>)
    ensures
        res@ == bytes@.reverse(),
{
    let n = bytes.len();
    let mut out: Vec<u8> = Vec::new();
    let mut i: usize = 0;
    while i < n
        invariant
            i <= n,
            n == bytes@.len(),
            out@.len() == i,
            forall|j: int| 0 <= j < i ==> out@[j] == bytes@[n - 1 - j],
        decreases n - i,
    {
        out.push(bytes[n - 1 - i]);
        i = i + 1;
    }
    proof {
        assert(out@ =~= bytes@.reverse());
    }
    out
}

/// Reverses a vector of expressions.
pub fn reverse_exprs(values: &Vec<Expr>) -> (res: Vec<Expr>)
    ensures
        res@ == values@.reverse(),
{
    let n = values.len();
    let mut out: Vec<Expr> = Vec::new();
    let mut i: usize = 0;
    while i < n
        invariant
            i <= n,
            n == values@.len(),
            out@.len() == i,
            forall|j: int| 0 <= j < i ==> out@[j] == values@[n - 1 - j],
        decreases n - i,
    {
        out.push(values[n - 1 - i].clone());
        i = i + 1;
    }
    proof {
        assert(out@ =~= values@.reverse());
    }
    out
}

/// The RLC expression evaluates to the value-level RLC of its summands'
/// values: compressing symbolically and compressing the values agree.
pub proof fn lemma_rlc_expr_eval(vs: Seq<Expr>, r: Expr, env: crate::expr::EvalEnv)
    ensures
        rlc_expr_spec(vs, r).eval(env) == rlc_value_spec(
            vs.map_values(|e: Expr| e.eval(env)),
            r.eval(env),
        ),
    decreases vs.len(),
{
    let vals = vs.map_values(|e: Expr| e.eval(env));
    if vs.len() == 0 {
        vstd::arithmetic::div_mod::lemma_small_mod(0nat, crate::field::FIELD_MODULUS as nat);
        assert(rlc_expr_spec(vs, r).eval(env) == 0);
    } else if vs.len() == 1 {
        crate::expr::lemma_eval_reduced(vs[0], env);
        vstd::arithmetic::div_mod::lemma_small_mod(
            vs[0].eval(env) as nat,
            crate::field::FIELD_MODULUS as nat,
        );
    } else {
        let rest = vs.drop_first();
        let rv = r.eval(env);
        lemma_rlc_expr_eval(rest, r, env);
        assert(rest.map_values(|e: Expr| e.eval(env)) =~= vals.drop_first());
        let prod = Expr::Product(Box::new(rlc_expr_spec(rest, r)), Box::new(r));
        assert(rlc_expr_spec(vs, r) == Expr::Sum(Box::new(prod), Box::new(vs[0])));
        assert(prod.eval(env) == fmul(rlc_expr_spec(rest, r).eval(env), rv));
        assert(rlc_expr_spec(vs, r).eval(env) == fadd(prod.eval(env), vs[0].eval(env)));
        assert(vals[0] == vs[0].eval(env));
        assert(rlc_value_spec(vals, rv) == fadd(
            fmul(rlc_value_spec(vals.drop_first(), rv), rv),
            vals[0],
        ));
    }
}

/// Compressing a reversed tuple with the reversed-order helper yields
/// exactly the plain compression of the original tuple.
pub proof fn lemma_rlc_rev_of_reversed(vs: Seq<Expr>, r: Expr)
    ensures
        rlc_expr_spec(vs.reverse().reverse(), r) == rlc_expr_spec(vs, r),
{
    assert(vs.reverse().reverse() =~= vs);
}

/// `r^k` as a residue.
pub open spec fn pow_mod(r: int, k: nat) -> int {
    vstd::arithmetic::power::pow(r, k) % (crate::field::FIELD_MODULUS as int)
}

/// The power-sum form of an RLC: the sum over positions of
/// `value_i * r^i`.
pub open spec fn rlc_power_sum(vals: Seq<int>, r: int) -> int
    decreases vals.len(),
{
    if vals.len() == 0 {
        0
    } else {
        fadd(
            rlc_power_sum(vals.drop_last(), r),
            fmul(vals.last(), pow_mod(r, (vals.len() - 1) as nat)),
        )
    }
}

/// Absorbing one more value into a Horner-form RLC adds it at the next
/// power of the randomness.
proof fn lemma_rlc_value_push(vals: Seq<int>, x: int, r: int)
    ensures
        rlc_value_spec(vals.push(x), r) == fadd(
            rlc_value_spec(vals, r),
            fmul(x, pow_mod(r, vals.len())),
        ),
    decreases vals.len(),
{
    let m = crate::field::FIELD_MODULUS as int;
    let p = vals.push(x);
    vstd::arithmetic::power::lemma_pow0(r);
    if vals.len() == 0 {
        assert(p.len() == 1);
        assert(p[0] == x);
        assert(rlc_value_spec(p, r) == freduce(x));
        crate::field::lemma_one_mul(x);
        crate::field::lemma_add_zero_left(x);
    } else {
        let tail = vals.drop_last();
        let pw = pow_mod(r, (vals.len() - 1) as nat);
        assert(p[0] == vals[0]);
        assert(p.drop_first() =~= vals.drop_first().push(x));
        lemma_rlc_value_push(vals.drop_first(), x, r);
        let t = fmul(x, pow_mod(r, (vals.len() - 1) as nat));
        assert(rlc_value_spec(p, r) == fadd(
            fmul(fadd(rlc_value_spec(vals.drop_first(), r), t), r),
            vals[0],
        ));
        crate::field::lemma_fmul_distributes(rlc_value_spec(vals.drop_first(), r), t, r);
        crate::field::lemma_fadd_rearrange(
            fmul(rlc_value_spec(vals.drop_first(), r), r),
            fmul(t, r),
            vals[0],
        );
        // fmul(t, r) steps up to the next power of r.
        crate::field::lemma_fmul_assoc(x, pow_mod(r, (vals.len() - 1) as nat), r);
        assert(fmul(pow_mod(r, (vals.len() - 1) as nat), r) == pow_mod(r, vals.len())) by {
            vstd::arithmetic::div_mod::lemma_mul_mod_noop_left(
                vstd::arithmetic::power::pow(r, (vals.len() - 1) as nat),
                r,
                m,
            );
            reveal(vstd::arithmetic::power::pow);
            assert(vstd::arithmetic::power::pow(r, vals.len()) == r * vstd::arithmetic::power::pow(
                r,
                (vals.len() - 1) as nat,
            ));
        }
        if vals.len() == 1 {
            // rlc(vals) is just the reduced head; fold the reduction away.
            assert(rlc_value_spec(vals, r) == freduce(vals[0]));
            assert(fadd(fmul(rlc_value_spec(vals.drop_first(), r), r), vals[0]) == fadd(
                rlc_value_spec(vals, r),
                0,
            )) by {
                assert(vals.drop_first().len() == 0);
                assert(rlc_value_spec(vals.drop_first(), r) == 0);
                crate::field::lemma_zero_mul(r);
                vstd::arithmetic::div_mod::lemma_add_mod_noop(0, vals[0], m);
                vstd::arithmetic::div_mod::lemma_add_mod_noop(vals[0], 0, m);
                vstd::arithmetic::div_mod::lemma_mod_twice(vals[0], m);
            }
            crate::field::lemma_add_zero_right(vals[0]);
        }
    }
}

/// The RLC law: the Horner-form combination equals the power sum
/// `value_0 + value_1 r + value_2 r^2 + ...`.
pub proof fn lemma_rlc_is_power_sum(vals: Seq<int>, r: int)
    ensures
        rlc_value_spec(vals, r) == rlc_power_sum(vals, r),
    decreases vals.len(),
{
    if vals.len() > 0 {
        let front = vals.drop_last();
        assert(vals =~= front.push(vals.last()));
        lemma_rlc_is_power_sum(front, r);
        lemma_rlc_value_push(front, vals.last(), r);
    }
}

/// Expression tuples that can be compressed by RLC.
pub trait RLCable {
    /// The expressions being combined.
    spec fn exprs(&self) -> Seq<Expr>;

    /// The RLC of the tuple.
    fn rlc(&self, r: &Expr) -> (res: Expr)
        ensures
            res == rlc_expr_spec(self.exprs(), *r),
    ;

    /// The RLC of the reversed tuple.
    fn rlc_rev(&self, r: &Expr) -> (res: Expr)
        ensures
            res == rlc_expr_spec(self.exprs().reverse(), *r),
    ;
}

impl RLCable for Vec<Expr> {
    open spec fn exprs(&self) -> Seq<Expr> {
        self@
    }

    fn rlc(&self, r: &Expr) -> (res: Expr) {
        rlc_expr(self, r)
    }

    fn rlc_rev(&self, r: &Expr) -> (res: Expr) {
        let rev = reverse_exprs(self);
        rlc_expr(&rev, r)
    }
}

/// Partial RLC pairs `(combination so far, multiplier)` that another
/// expression can be chained onto.
pub trait RLCChainable {
    /// The pair's components.
    spec fn parts(&self) -> (Expr, Expr);

    /// Chains `other` on: `self.0 + self.1 * other`.
    fn rlc_chain(&self, other: Expr) -> (res: Expr)
        ensures
            res == Expr::Sum(
                Box::new(self.parts().0),
                Box::new(Expr::Product(Box::new(self.parts().1), Box::new(other))),
            ),
    ;
}

impl RLCChainable for (Expr, Expr) {
    open spec fn parts(&self) -> (Expr, Expr) {
        *self
    }

    fn rlc_chain(&self, other: Expr) -> (res: Expr) {
        Expr::sum(self.0.clone(), Expr::product(self.1.clone(), other))
    }
}

/// Expressions that can be chained in front of a partial RLC pair.
pub trait RLCChainableRev {
    /// The expression itself.
    spec fn as_expr(&self) -> Expr;

    /// Chains `self` on in front: `self * other.1 + other.0`.
    fn rlc_chain_rev(&self, other: (Expr, Expr)) -> (res: Expr)
        ensures
            res == Expr::Sum(
                Box::new(Expr::Product(Box::new(self.as_expr()), Box::new(other.1))),
                Box::new(other.0),
            ),
    ;
}

impl RLCChainableRev for Expr {
    open spec fn as_expr(&self) -> Expr {
        *self
    }

    fn rlc_chain_rev(&self, other: (Expr, Expr)) -> (res: Expr) {
        Expr::sum(Expr::product(self.clone(), other.1), other.0)
    }
}

/// Byte strings whose RLC can be taken at the value level.
pub trait RLCableValue {
    /// The bytes being combined.
    spec fn byte_seq(&self) -> Seq<u8>;

    /// The value-level RLC of the bytes.
    fn rlc_value(&self, r: Fp) -> (res: Fp)
        ensures
            res.v == rlc_value_spec(bytes_as_residues(self.byte_seq()), r.v as int),
            res.reduced(),
    ;

    /// The value-level RLC of the reversed bytes.
    fn rlc_value_rev(&self, r: Fp) -> (res: Fp)
        ensures
            res.v == rlc_value_spec(bytes_as_residues(self.byte_seq().reverse()), r.v as int),
            res.reduced(),
    ;
}

impl RLCableValue for Vec<u8> {
    open spec fn byte_seq(&self) -> Seq<u8> {
        self@
    }

    fn rlc_value(&self, r: Fp) -> (res: Fp) {
        rlc_value_bytes(self, r)
    }

    fn rlc_value_rev(&self, r: Fp) -> (res: Fp) {
        let rev = reverse_bytes(self);
        proof {
            assert(bytes_as_residues(rev@) =~= bytes_as_residues(self@.reverse()));
        }
        rlc_value_bytes(&rev, r)
    }
}

impl RLCableValue for [u8] {
    open spec fn byte_seq(&self) -> Seq<u8> {
        self@
    }

    fn rlc_value(&self, r: Fp) -> (res: Fp) {
        let mut copy: Vec<u8> = Vec::new();
        let n = self.len();
        let mut i: usize = 0;
        while i < n
            invariant
                i <= n,
                n == self@.len(),
                copy@ == self@.subrange(0, i as int),
            decreases n - i,
        {
            copy.push(self[i]);
            proof {
                assert(copy@ =~= self@.subrange(0, i + 1));
            }
            i = i + 1;
        }
        proof {
            assert(self@.subrange(0, n as int) =~= self@);
        }
        rlc_value_bytes(&copy, r)
    }

    fn rlc_value_rev(&self, r: Fp) -> (res: Fp) {
        let mut copy: Vec<u8> = Vec::new();
        let n = self.len();
        let mut i: usize = 0;
        while i < n
            invariant
                i <= n,
                n == self@.len(),
                copy@ == self@.subrange(0, i as int),
            decreases n - i,
        {
            copy.push(self[i]);
            proof {
                assert(copy@ =~= self@.subrange(0, i + 1));
            }
            i = i + 1;
        }
        proof {
            assert(self@.subrange(0, n as int) =~= self@);
        }
        let rev = reverse_bytes(&copy);
        proof {
            assert(bytes_as_residues(rev@) =~= bytes_as_residues(self@.reverse()));
        }
        rlc_value_bytes(&rev, r)
    }
}

/// The state of a running value-level RLC after absorbing `vals`:
/// each byte adds `byte * multiplier` and steps the multiplier by `r`.
pub open spec fn rlc_chain_value_spec(acc: int, mult: int, vals: Seq<u8>, r: int) -> (int, int)
    decreases vals.len(),
{
    if vals.len() == 0 {
        (acc, mult)
    } else {
        rlc_chain_value_spec(
            fadd(acc, fmul(vals[0] as int, mult)),
            fmul(mult, r),
            vals.drop_first(),
            r,
        )
    }
}

/// Running value-level RLC pairs `(combination so far, multiplier)`.
pub trait RLCChainableValue {
    /// The pair's components.
    spec fn value_parts(&self) -> (Fp, Fp);

    /// Absorbs the given bytes, returning the new pair.
    fn rlc_chain_value(&self, values: &Vec<u8>, r: Fp) -> (res: (Fp, Fp))
        requires
            self.value_parts().0.reduced(),
            self.value_parts().1.reduced(),
        ensures
            (res.0.v as int, res.1.v as int) == rlc_chain_value_spec(
                self.value_parts().0.v as int,
                self.value_parts().1.v as int,
                values@,
                r.v as int,
            ),
            res.0.reduced(),
            res.1.reduced(),
    ;
}

impl RLCChainableValue for (Fp, Fp) {
    open spec fn value_parts(&self) -> (Fp, Fp) {
        *self
    }

    fn rlc_chain_value(&self, values: &Vec<u8>, r: Fp) -> (res: (Fp, Fp)) {
        let mut acc: Fp = self.0;
        let mut mult: Fp = self.1;
        let mut i: usize = 0;
        let n = values.len();
        proof {
            assert(values@.subrange(0, n as int) =~= values@);
        }
        while i < n
            invariant
                i <= n,
                n == values@.len(),
                acc.reduced(),
                mult.reduced(),
                rlc_chain_value_spec(
                    self.value_parts().0.v as int,
                    self.value_parts().1.v as int,
                    values@,
                    r.v as int,
                ) == rlc_chain_value_spec(
                    acc.v as int,
                    mult.v as int,
                    values@.subrange(i as int, n as int),
                    r.v as int,
                ),
            decreases n - i,
        {
            proof {
                let cur = values@.subrange(i as int, n as int);
                let rest = values@.subrange(i + 1, n as int);
                assert(cur.drop_first() =~= rest);
                assert(cur[0] == values@[i as int]);
            }
            acc = acc.add(Fp::new(values[i] as u64).mul(mult));
            mult = mult.mul(r);
            i = i + 1;
        }
        proof {
            assert(values@.subrange(n as int, n as int) =~= Seq::<u8>::empty());
        }
        (acc, mult)
    }
}

} // verus!
