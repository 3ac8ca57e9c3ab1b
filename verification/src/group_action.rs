//! The class-group action: a walk through the isogeny graph, directed by a private exponent
//! vector and hidden behind dummy steps.
//!
//! For every prime `l_i` the walk owes [`BUDGET`] isogeny computations: `e_i` real ones, which
//! move to the image curve, and `BUDGET - e_i` dummy ones, which do the same arithmetic and
//! throw it away. A round takes one candidate x-coordinate; the walk is over when nothing is
//! owed any more.
use crate::csidh_params::{
    all_positive, lemma_product_between_bound, lemma_product_between_mark,
    lemma_product_between_multiple, lemma_product_between_none, product, product_between,
    CsidhParams,
};
use crate::field::FieldElement;
use crate::integer::{uint_from_u64, uint_limit, uint_value, uint_wrapping_mul};
use crate::isogeny::{
    image_coefficient, isogeny_image, kernel_sums, push_through, velu_coefficient, velu_sums,
};
use crate::montgomery_curve::{a24_of, lifts, MontgomeryCurve};
use crate::xonly::{xz_mul, XZ};
use vstd::prelude::*;

verus! {

/// The number of isogeny computations per prime in one walk, real and dummy together; also
/// the largest exponent that a private key may hold.
pub const BUDGET: u32 = 10;

/// The state of a walk between two rounds.
pub struct WalkState {
    /// The coefficient `A` of the current curve.
    pub a: nat,
    /// The real steps still owed, per prime.
    pub path: Seq<u32>,
    /// The dummy steps still owed, per prime.
    pub dummies: Seq<u32>,
    /// The cofactor: 4 times the primes that owe nothing any more.
    pub k: nat,
}

/// The state of a walk inside a round: that of the walk, and the point that the round works on.
pub struct RoundState {
    pub a: nat,
    pub pt: XZ,
    pub path: Seq<u32>,
    pub dummies: Seq<u32>,
    pub k: nat,
}

/// Marks the primes that still owe a step, real or dummy.
pub open spec fn active_mask(path: Seq<u32>, dummies: Seq<u32>) -> Seq<bool> {
    Seq::new(path.len(), |j: int| path[j] > 0 || dummies[j] > 0)
}

/// Marks the primes that owe nothing any more.
pub open spec fn finished_mask(path: Seq<u32>, dummies: Seq<u32>) -> Seq<bool> {
    Seq::new(path.len(), |j: int| path[j] == 0 && dummies[j] == 0)
}

/// The product of the primes after `l_i` that still owe a step: multiplying by it leaves a
/// point whose order divides `l_i`.
pub open spec fn kernel_cofactor(
    path: Seq<u32>,
    dummies: Seq<u32>,
    i: int,
    params: CsidhParams,
) -> nat {
    product_between(
        params.primes(),
        active_mask(path, dummies),
        i + 1,
        params.primes().len() as int,
    )
}

/// The state after a step for the prime `l_i` that pays a unit of `path` or of `dummies`:
/// the unit is gone, and the cofactor takes up `l_i` once nothing is owed for it.
pub open spec fn paid(
    rs: RoundState,
    i: int,
    is_real: bool,
    a: nat,
    pt: XZ,
    params: CsidhParams,
) -> RoundState {
    let path = if is_real {
        rs.path.update(i, (rs.path[i] - 1) as u32)
    } else {
        rs.path
    };
    let dummies = if is_real {
        rs.dummies
    } else {
        rs.dummies.update(i, (rs.dummies[i] - 1) as u32)
    };
    RoundState {
        a,
        pt,
        path,
        dummies,
        k: if path[i] == 0 && dummies[i] == 0 {
            rs.k * (params.primes()[i] as nat)
        } else {
            rs.k
        },
    }
}

/// What a round does for the prime `l_i`. Nothing, if the prime owes nothing or the point
/// has no component of order `l_i`. Otherwise, with `K` the kernel point: a real step while
/// `path[i] > 0`, to the image curve and the image of the point; a dummy step after that,
/// which only multiplies the point by `l_i`. There is no next state where a multiple of `K`
/// has no invertible affine x-coordinate.
pub open spec fn prime_step(rs: RoundState, i: int, params: CsidhParams) -> Option<RoundState> {
    let p = params.modulus();
    let l = params.primes()[i] as nat;
    let a24 = a24_of(rs.a, params);
    let kernel = xz_mul(rs.pt, kernel_cofactor(rs.path, rs.dummies, i, params), a24, p);
    if !(rs.path[i] > 0 || rs.dummies[i] > 0) || kernel.z == 0 {
        Some(rs)
    } else {
        match velu_sums(kernel, (l - 1) as nat, a24, p) {
            None => None,
            Some((tau, sigma)) => Some(
                if rs.path[i] > 0 {
                    paid(
                        rs,
                        i,
                        true,
                        velu_coefficient(rs.a, tau, sigma, p),
                        isogeny_image(rs.pt, kernel, l / 2, a24, p),
                        params,
                    )
                } else {
                    paid(rs, i, false, rs.a, xz_mul(rs.pt, l, a24, p), params)
                },
            ),
        }
    }
}

/// The steps of a round for the first `n` primes, in ascending order.
pub open spec fn round_steps(rs: RoundState, n: nat, params: CsidhParams) -> Option<RoundState>
    decreases n,
{
    if n == 0 {
        Some(rs)
    } else {
        match round_steps(rs, (n - 1) as nat, params) {
            None => None,
            Some(before) => prime_step(before, n - 1, params),
        }
    }
}

/// One round on the candidate x-coordinate `x`. If `x` does not lift to the current curve
/// the state stays as it is. Otherwise the lifted point is multiplied by the cofactor and
/// taken through the steps for all primes.
pub open spec fn round(st: WalkState, x: nat, params: CsidhParams) -> Option<WalkState> {
    let p = params.modulus();
    if !lifts(st.a, x, params.half_order(), p) {
        Some(st)
    } else {
        let start = RoundState {
            a: st.a,
            pt: xz_mul(XZ { x, z: 1 }, st.k, a24_of(st.a, params), p),
            path: st.path,
            dummies: st.dummies,
            k: st.k,
        };
        match round_steps(start, params.primes().len(), params) {
            None => None,
            Some(rs) => Some(WalkState { a: rs.a, path: rs.path, dummies: rs.dummies, k: rs.k }),
        }
    }
}

/// Nothing is owed any more.
pub open spec fn walk_finished(st: WalkState) -> bool {
    forall|i: int| 0 <= i < st.path.len() ==> owes_nothing(st, i)
}

/// Nothing is owed any more for the prime `l_i`.
pub open spec fn owes_nothing(st: WalkState, i: int) -> bool {
    st.path[i] == 0 && st.dummies[i] == 0
}

/// The state that a walk starts in: the exponents as real steps, their complements to
/// [`BUDGET`] as dummy steps, and the cofactor 4.
pub open spec fn initial_state(path: Seq<u32>, start: nat) -> WalkState {
    WalkState {
        a: start,
        path,
        dummies: Seq::new(path.len(), |i: int| (BUDGET - path[i]) as u32),
        k: 4,
    }
}

/// The counters have one entry per prime, and the cofactor is 4 times the product of the
/// primes that owe nothing any more. In particular it is a multiple of each of them.
pub open spec fn counters_wf(
    path: Seq<u32>,
    dummies: Seq<u32>,
    k: nat,
    params: CsidhParams,
) -> bool {
    &&& path.len() == params.primes().len()
    &&& dummies.len() == params.primes().len()
    &&& k == 4 * product_between(
        params.primes(),
        finished_mask(path, dummies),
        0,
        params.primes().len() as int,
    )
}

/// Once a round has no next state, it has none after further primes either.
pub proof fn lemma_round_steps_stay_none(rs: RoundState, n: nat, m: nat, params: CsidhParams)
    requires
        n <= m,
        round_steps(rs, n, params) is None,
    ensures
        round_steps(rs, m, params) is None,
    decreases m,
{
    if n < m {
        lemma_round_steps_stay_none(rs, n, (m - 1) as nat, params);
    }
}

/// The cofactor stays within the integer width, and is at least 4.
pub proof fn lemma_cofactor_bound(path: Seq<u32>, dummies: Seq<u32>, k: nat, params: CsidhParams)
    requires
        params.valid(),
        counters_wf(path, dummies, k, params),
    ensures
        4 <= k < uint_limit(),
{
    let lis = params.primes();
    assert(all_positive(lis));
    lemma_product_between_bound(lis, finished_mask(path, dummies), 0, lis.len() as int);
}

/// The cofactor is a multiple of every prime that owes nothing any more, so that a point
/// multiplied by it has no component of that order left.
pub proof fn lemma_cofactor_multiple(
    path: Seq<u32>,
    dummies: Seq<u32>,
    k: nat,
    i: int,
    params: CsidhParams,
)
    requires
        params.valid(),
        counters_wf(path, dummies, k, params),
        0 <= i < path.len(),
        path[i] == 0,
        dummies[i] == 0,
    ensures
        k % (params.primes()[i] as nat) == 0,
{
    let lis = params.primes();
    let l = lis[i] as int;
    let n = lis.len() as int;
    let mask = finished_mask(path, dummies);
    assert(lis[i] >= 3);
    lemma_product_between_multiple(lis, mask, i, 0, n);
    let whole = product_between(lis, mask, 0, n) as int;
    vstd::arithmetic::div_mod::lemma_mul_mod_noop_right(4, whole, l);
    assert((4int * 0int) % l == 0) by {
        vstd::arithmetic::div_mod::lemma_small_mod(0, l as nat);
    }
}

/// A step for the prime `l_i` touches no other prime, and it pays exactly one unit for `l_i`,
/// real or dummy, when the prime is active and the kernel point is finite: so every prime is
/// paid for [`BUDGET`] times in a walk, whatever the exponents are.
pub proof fn lemma_prime_step_pays_one(rs: RoundState, i: int, params: CsidhParams)
    requires
        0 <= i < rs.path.len(),
        rs.path.len() == rs.dummies.len(),
        prime_step(rs, i, params) is Some,
    ensures
        ({
            let next = prime_step(rs, i, params)->Some_0;
            let kernel = xz_mul(
                rs.pt,
                kernel_cofactor(rs.path, rs.dummies, i, params),
                a24_of(rs.a, params),
                params.modulus(),
            );
            let taken = (rs.path[i] > 0 || rs.dummies[i] > 0) && kernel.z != 0;
            &&& next.path.len() == rs.path.len()
            &&& next.dummies.len() == rs.dummies.len()
            &&& forall|j: int|
                0 <= j < rs.path.len() && j != i ==> next.path[j] == rs.path[j]
                    && next.dummies[j] == rs.dummies[j]
            &&& taken ==> next.path[i] + next.dummies[i] + 1 == rs.path[i] + rs.dummies[i]
            &&& !taken ==> next == rs
            &&& rs.path[i] == 0 ==> next.a == rs.a
        }),
{
}

/// Paying a unit for the prime `l_i` keeps the cofactor in step with the counters.
pub proof fn lemma_paid_keeps_counters(
    rs: RoundState,
    i: int,
    is_real: bool,
    a: nat,
    pt: XZ,
    params: CsidhParams,
)
    requires
        params.valid(),
        counters_wf(rs.path, rs.dummies, rs.k, params),
        0 <= i < rs.path.len(),
        is_real ==> rs.path[i] > 0,
        !is_real ==> rs.path[i] == 0 && rs.dummies[i] > 0,
    ensures
        ({
            let next = paid(rs, i, is_real, a, pt, params);
            counters_wf(next.path, next.dummies, next.k, params) && next.k < uint_limit()
        }),
{
    let lis = params.primes();
    let n = lis.len() as int;
    let next = paid(rs, i, is_real, a, pt, params);
    let before = finished_mask(rs.path, rs.dummies);
    let after = finished_mask(next.path, next.dummies);
    assert(!before[i]);
    if next.path[i] == 0 && next.dummies[i] == 0 {
        assert(after =~= before.update(i, true));
        lemma_product_between_mark(lis, before, i, n);
        let base = product_between(lis, before, 0, n);
        assert(4 * (base * (lis[i] as nat)) == (4 * base) * (lis[i] as nat)) by (nonlinear_arith);
    } else {
        assert(after =~= before);
    }
    lemma_cofactor_bound(next.path, next.dummies, next.k, params);
}

/// The product of the primes after `l_i` that still owe a step.
pub fn tail_product(
    lis: &Vec<u64>,
    path: &Vec<u32>,
    dummies: &Vec<u32>,
    i: usize,
) -> (r: crypto_bigint::Uint<8>)
    requires
        all_positive(lis@),
        4 * product(lis@) < uint_limit(),
        path.len() == lis.len(),
        dummies.len() == lis.len(),
        i < lis.len(),
    ensures
        uint_value(r) == product_between(
            lis@,
            active_mask(path@, dummies@),
            i + 1,
            lis.len() as int,
        ),
        uint_value(r) >= 1,
{
    let ghost mask = active_mask(path@, dummies@);
    let mut temp = uint_from_u64(1);
    let mut j = i + 1;
    while j < lis.len()
        invariant
            all_positive(lis@),
            4 * product(lis@) < uint_limit(),
            path.len() == lis.len(),
            dummies.len() == lis.len(),
            i + 1 <= j <= lis.len(),
            mask == active_mask(path@, dummies@),
            uint_value(temp) == product_between(lis@, mask, i + 1, j as int),
        decreases lis.len() - j,
    {
        if path[j] > 0 || dummies[j] > 0 {
            proof {
                lemma_product_between_bound(lis@, mask, i + 1, j + 1);
                vstd::arithmetic::div_mod::lemma_small_mod(
                    product_between(lis@, mask, i + 1, j + 1),
                    uint_limit(),
                );
            }
            temp = uint_wrapping_mul(&temp, &uint_from_u64(lis[j]));
        }
        j = j + 1;
    }
    proof {
        lemma_product_between_bound(lis@, mask, i + 1, lis.len() as int);
    }
    temp
}

/// A walk in progress: the parameters, the current curve, what is still owed for each prime,
/// and the cofactor.
#[derive(Debug)]
pub struct Walk<'a> {
    params: &'a CsidhParams,
    curve: MontgomeryCurve,
    path: Vec<u32>,
    dummies: Vec<u32>,
    k: crypto_bigint::Uint<8>,
}

impl<'a> View for Walk<'a> {
    type V = WalkState;

    closed spec fn view(&self) -> WalkState {
        WalkState {
            a: self.curve.coefficient(),
            path: self.path@,
            dummies: self.dummies@,
            k: uint_value(self.k),
        }
    }
}

impl<'a> Walk<'a> {
    /// The parameters that the walk was started with.
    pub closed spec fn params(&self) -> CsidhParams {
        *self.params
    }

    /// The parameters are valid, the curve is a curve over their field, and the cofactor is
    /// in step with the counters.
    pub closed spec fn wf(&self) -> bool {
        &&& self.params.valid()
        &&& self.curve.wf()
        &&& self.curve.modulus() == self.params.modulus()
        &&& self.curve.a24_value() == a24_of(self.curve.coefficient(), *self.params)
        &&& self.curve.half_order() == self.params.half_order()
        &&& counters_wf(self.path@, self.dummies@, uint_value(self.k), *self.params)
    }

    /// A walk is well-formed only with counters that are.
    pub proof fn lemma_wf(&self)
        requires
            self.wf(),
        ensures
            self.params().valid(),
            counters_wf(self@.path, self@.dummies, self@.k, self.params()),
    {
    }

    /// Starts a walk at the curve with coefficient `start`, for the exponent vector `path`.
    pub fn new(params: &'a CsidhParams, path: &Vec<u32>, start: FieldElement) -> (r: Self)
        requires
            params.valid(),
            path.len() == params.primes().len(),
            forall|i: int| 0 <= i < path.len() ==> (#[trigger] path[i]) <= BUDGET,
            start.wf(),
            start.modulus() == params.modulus(),
        ensures
            r.wf(),
            r.params() == *params,
            r@ == initial_state(path@, start@),
    {
        let curve = MontgomeryCurve::new(params, start);
        let mut owed: Vec<u32> = Vec::new();
        let mut dummies: Vec<u32> = Vec::new();
        let mut i: usize = 0;
        while i < path.len()
            invariant
                i <= path.len(),
                owed.len() == i,
                dummies.len() == i,
                forall|j: int| 0 <= j < path.len() ==> (#[trigger] path[j]) <= BUDGET,
                forall|j: int| 0 <= j < i ==> (#[trigger] owed[j]) == path[j],
                forall|j: int| 0 <= j < i ==> (#[trigger] dummies[j]) == BUDGET - path[j],
            decreases path.len() - i,
        {
            owed.push(path[i]);
            dummies.push(BUDGET - path[i]);
            i = i + 1;
        }
        let k = uint_from_u64(4);
        proof {
            assert(owed@ =~= path@);
            assert(dummies@ =~= initial_state(path@, start@).dummies);
            let mask = finished_mask(owed@, dummies@);
            assert forall|j: int| 0 <= j < path.len() implies !#[trigger] mask[j] by {
                assert(dummies[j] == BUDGET - path[j]);
            }
            lemma_product_between_none(params.primes(), mask, 0, path.len() as int);
        }
        Walk { params, curve, path: owed, dummies, k }
    }

    /// Whether nothing is owed any more.
    pub fn finished(&self) -> (r: bool)
        requires
            self.wf(),
        ensures
            r == walk_finished(self@),
    {
        let mut i: usize = 0;
        while i < self.path.len()
            invariant
                i <= self.path.len(),
                self.path.len() == self.dummies.len(),
                forall|j: int| 0 <= j < i ==> (#[trigger] self.path@[j]) == 0,
                forall|j: int| 0 <= j < i ==> (#[trigger] self.dummies@[j]) == 0,
            decreases self.path.len() - i,
        {
            if self.path[i] != 0 || self.dummies[i] != 0 {
                proof {
                    assert(!owes_nothing(self@, i as int));
                }
                return false;
            }
            i = i + 1;
        }
        proof {
            assert forall|j: int| 0 <= j < self@.path.len() implies owes_nothing(self@, j) by {
                assert(self.path@[j] == 0 && self.dummies@[j] == 0);
            }
        }
        true
    }

    /// The coefficient `A` of the current curve; the result of the walk once it is finished.
    pub fn coefficient(&self) -> (r: FieldElement)
        requires
            self.wf(),
        ensures
            r.wf(),
            r@ == self@.a,
            r.modulus() == self.params().modulus(),
    {
        self.curve.a2()
    }

    /// One round of the walk on the candidate x-coordinate `x`: see [`round`]. Nothing is
    /// returned where a kernel point turns out to have a multiple without an invertible affine
    /// x-coordinate, which no point of exact order `l_i` has.
    #[verifier::loop_isolation(false)]
    pub fn step(self, x: FieldElement) -> (r: Option<Walk<'a>>)
        requires
            self.wf(),
            x.wf(),
            x.modulus() == self.params().modulus(),
        ensures
            r is Some <==> round(self@, x@, self.params()) is Some,
            r matches Some(w) ==> w.wf() && w.params() == self.params() && Some(w@) == round(
                self@,
                x@,
                self.params(),
            ),
    {
        let params = self.params;
        let ghost begin = self@;
        let lifted = self.curve.lift(x);
        let point = match lifted {
            None => {
                return Some(self);
            },
            Some(point) => point,
        };
        proof {
            lemma_cofactor_bound(begin.path, begin.dummies, begin.k, *params);
        }
        let mut point_p = point.mul(&self.k);
        let mut curve = self.curve;
        let mut path = self.path;
        let mut dummies = self.dummies;
        let mut k = self.k;
        let ghost start = RoundState {
            a: begin.a,
            pt: point_p.xz(),
            path: begin.path,
            dummies: begin.dummies,
            k: begin.k,
        };
        let lis = params.lis();
        let count = lis.len();
        let mut i: usize = 0;
        while i < count
            invariant
                i <= count,
                count == lis.len(),
                lis@ == params.primes(),
                params.valid(),
                curve.wf(),
                curve.modulus() == params.modulus(),
                curve.a24_value() == a24_of(curve.coefficient(), *params),
                curve.half_order() == params.half_order(),
                counters_wf(path@, dummies@, uint_value(k), *params),
                point_p.wf(),
                point_p.on(&curve),
                round_steps(start, i as nat, *params) == Some(
                    RoundState {
                        a: curve.coefficient(),
                        pt: point_p.xz(),
                        path: path@,
                        dummies: dummies@,
                        k: uint_value(k),
                    },
                ),
            decreases count - i,
        {
            let ghost rs = RoundState {
                a: curve.coefficient(),
                pt: point_p.xz(),
                path: path@,
                dummies: dummies@,
                k: uint_value(k),
            };
            let li = lis[i];
            proof {
                assert(all_positive(lis@));
                assert(3 <= params.primes()[i as int]);
            }
            if path[i] > 0 || dummies[i] > 0 {
                let m = tail_product(lis, &path, &dummies, i);
                let point_k = point_p.mul(&m);
                if !point_k.is_infinity() {
                    let sums = kernel_sums(&point_k, li - 1);
                    let (tau, sigma) = match sums {
                        None => {
                            proof {
                                assert(prime_step(rs, i as int, *params) is None);
                                assert(round_steps(start, (i + 1) as nat, *params) is None);
                                lemma_round_steps_stay_none(
                                    start,
                                    (i + 1) as nat,
                                    count as nat,
                                    *params,
                                );
                            }
                            return None;
                        },
                        Some(sums) => sums,
                    };
                    let b = image_coefficient(&curve.a2(), &tau, &sigma);
                    let is_real = path[i] > 0;
                    if is_real {
                        let image_curve = MontgomeryCurve::new(params, b);
                        point_p = push_through(&point_p, &point_k, li / 2, &image_curve);
                        curve = image_curve;
                        let owed = path[i];
                        path.set(i, owed - 1);
                    } else {
                        point_p = point_p.mul(&uint_from_u64(li));
                        let owed = dummies[i];
                        dummies.set(i, owed - 1);
                    }
                    proof {
                        lemma_paid_keeps_counters(
                            rs,
                            i as int,
                            is_real,
                            curve.coefficient(),
                            point_p.xz(),
                            *params,
                        );
                    }
                    if path[i] == 0 && dummies[i] == 0 {
                        proof {
                            vstd::arithmetic::div_mod::lemma_small_mod(
                                uint_value(k) * (li as nat),
                                uint_limit(),
                            );
                        }
                        k = uint_wrapping_mul(&k, &uint_from_u64(li));
                    }
                }
            }
            i = i + 1;
        }
        Some(Walk { params, curve, path, dummies, k })
    }
}

/// The walk from `st` on, one round per candidate in `draws`, each reduced modulo `p`, until
/// the walk is finished or the candidates are used up.
pub open spec fn walk_run(
    st: WalkState,
    draws: Seq<crypto_bigint::Uint<8>>,
    params: CsidhParams,
) -> Option<WalkState>
    decreases draws.len(),
{
    if walk_finished(st) || draws.len() == 0 {
        Some(st)
    } else {
        match round(st, uint_value(draws[0]) % params.modulus(), params) {
            None => None,
            Some(next) => walk_run(next, draws.drop_first(), params),
        }
    }
}

/// Every exponent is zero.
pub open spec fn zero_vector(path: Seq<u32>) -> bool {
    forall|i: int| 0 <= i < path.len() ==> (#[trigger] path[i]) == 0
}

/// The result of the group action for the exponent vector `path` on the curve with
/// coefficient `start`. The zero vector leaves the curve as it is, with no step taken. Any
/// other vector walks on the candidates `draws`; there is a result if the walk finishes on
/// them.
pub open spec fn csidh_result(
    path: Seq<u32>,
    start: nat,
    draws: Seq<crypto_bigint::Uint<8>>,
    params: CsidhParams,
) -> Option<nat> {
    if zero_vector(path) {
        Some(start)
    } else {
        match walk_run(initial_state(path, start), draws, params) {
            Some(st) => if walk_finished(st) {
                Some(st.a)
            } else {
                None
            },
            None => None,
        }
    }
}

/// Whether every exponent is zero.
pub fn is_zero_vector(path: &Vec<u32>) -> (r: bool)
    ensures
        r == zero_vector(path@),
{
    let mut i: usize = 0;
    while i < path.len()
        invariant
            i <= path.len(),
            forall|j: int| 0 <= j < i ==> (#[trigger] path@[j]) == 0,
        decreases path.len() - i,
    {
        if path[i] != 0 {
            return false;
        }
        i = i + 1;
    }
    true
}

/// The group action: the coefficient of the curve that the exponent vector `path` leads to
/// from the curve with coefficient `start`.
///
/// The candidates for x-coordinates are taken from `draws`, in order, each reduced modulo
/// `p`; the caller fills `draws` from a random source. A candidate that does not lift to the
/// current curve is passed over. Nothing is returned if the candidates are used up before
/// the walk is finished, or if a kernel point is degenerate (see [`Walk::step`]).
#[verifier::loop_isolation(false)]
pub fn csidh(
    params: &CsidhParams,
    path: &Vec<u32>,
    start: FieldElement,
    draws: &Vec<crypto_bigint::Uint<8>>,
) -> (r: Option<FieldElement>)
    requires
        params.valid(),
        path.len() == params.primes().len(),
        forall|i: int| 0 <= i < path.len() ==> (#[trigger] path[i]) <= BUDGET,
        start.wf(),
        start.modulus() == params.modulus(),
    ensures
        r is Some <==> csidh_result(path@, start@, draws@, *params) is Some,
        r matches Some(a) ==> a.wf() && a.modulus() == params.modulus() && Some(a@)
            == csidh_result(path@, start@, draws@, *params),
{
    if is_zero_vector(path) {
        return Some(start);
    }
    let ghost first = initial_state(path@, start@);
    let mut walk = Walk::new(params, path, start);
    let mut i: usize = 0;
    proof {
        assert(draws@.skip(0) =~= draws@);
    }
    while i < draws.len()
        invariant
            i <= draws.len(),
            walk.wf(),
            walk.params() == *params,
            walk_run(first, draws@, *params) == walk_run(walk@, draws@.skip(i as int), *params),
        decreases draws.len() - i,
    {
        if walk.finished() {
            return Some(walk.coefficient());
        }
        let x = start.reduce(&draws[i]);
        proof {
            assert(draws@.skip(i as int)[0] == draws@[i as int]);
            assert(draws@.skip(i as int).drop_first() =~= draws@.skip(i + 1));
        }
        walk = match walk.step(x) {
            None => {
                return None;
            },
            Some(next) => next,
        };
        i = i + 1;
    }
    if walk.finished() {
        Some(walk.coefficient())
    } else {
        None
    }
}

} // verus!
