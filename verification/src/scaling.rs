//! The quantity of one ingredient line that one meal needs.

use vstd::prelude::*;
use crate::ratio::{from_magnitude, lemma_reduced_value, normalize, reduced, Ratio, LIMIT};
use crate::recipe::RecipeIngredient;

verus! {

/// The head count weighted by the three multipliers, as the numerator of a
/// fraction over `weighted_denominator`.
pub open spec fn weighted_numerator(
    child: Ratio,
    teen: Ratio,
    adult: Ratio,
    children: int,
    teens: int,
    adults: int,
) -> int {
    children * child.num * teen.den * adult.den + teens * teen.num * child.den * adult.den
        + adults * adult.num * child.den * teen.den
}

/// The common denominator of the three multipliers.
pub open spec fn weighted_denominator(child: Ratio, teen: Ratio, adult: Ratio) -> int {
    child.den * teen.den * adult.den
}

/// The numerator of `base_quantity * weighted_people / base_servings`.
pub open spec fn required_numerator(
    line: RecipeIngredient,
    children: int,
    teens: int,
    adults: int,
) -> int {
    weighted_numerator(
        line.effective_child(),
        line.effective_teen(),
        line.effective_adult(),
        children,
        teens,
        adults,
    ) * line.base_quantity.num
}

/// The denominator of `base_quantity * weighted_people / base_servings`.
pub open spec fn required_denominator(line: RecipeIngredient, base_servings: int) -> int {
    weighted_denominator(line.effective_child(), line.effective_teen(), line.effective_adult())
        * line.base_quantity.den * base_servings
}

/// The quantity that a meal needs of an ingredient line:
/// `base_quantity * (children * child_multiplier + teens * teen_multiplier +
/// adults * adult_multiplier) / base_servings`, in lowest terms. It is
/// `None` where the fraction before reduction exceeds 128 bits or the reduced
/// one exceeds `LIMIT`; a quantity of zero is always representable.
pub open spec fn required_quantity_spec(
    line: RecipeIngredient,
    base_servings: int,
    children: int,
    teens: int,
    adults: int,
) -> Option<Ratio> {
    let n = required_numerator(line, children, teens, adults);
    let d = required_denominator(line, base_servings);
    if n == 0 {
        Some(Ratio::spec_zero())
    } else if n <= u128::MAX && d <= u128::MAX {
        normalize(n, d)
    } else {
        None
    }
}

/// A non-negative integer as a 128-bit value, if it fits.
pub open spec fn fit(v: int) -> Option<u128> {
    if 0 <= v <= u128::MAX {
        Some(v as u128)
    } else {
        None
    }
}

/// The product of a 128-bit value that may have overflowed and a positive
/// factor.
pub(crate) fn fit_mul(acc: Option<u128>, y: u128, Ghost(v): Ghost<int>) -> (r: Option<u128>)
    requires
        y >= 1,
        v >= 0,
        acc == fit(v),
    ensures
        r == fit(v * y),
        v * y >= v,
{
    assert(v * y >= v && v * y >= 0) by (nonlinear_arith)
        requires
            v >= 0,
            y >= 1,
    ;
    match acc {
        None => None,
        Some(x) => x.checked_mul(y),
    }
}

/// The sum of two 128-bit values that may have overflowed.
pub(crate) fn fit_add(
    a: Option<u128>,
    b: Option<u128>,
    Ghost(va): Ghost<int>,
    Ghost(vb): Ghost<int>,
) -> (r: Option<u128>)
    requires
        va >= 0,
        vb >= 0,
        a == fit(va),
        b == fit(vb),
    ensures
        r == fit(va + vb),
{
    match (a, b) {
        (Some(x), Some(y)) => x.checked_add(y),
        _ => None,
    }
}

/// `count * m.num * d1 * d2`, if it fits in 128 bits.
fn weighted_term(count: i32, m: &Ratio, d1: i64, d2: i64) -> (r: Option<u128>)
    requires
        count >= 0,
        m.wf(),
        m.num >= 0,
        d1 >= 1,
        d2 >= 1,
    ensures
        r == fit(count * m.num * d1 * d2),
        count * m.num * d1 * d2 >= 0,
        count == 0 ==> count * m.num * d1 * d2 == 0,
{
    let c: u128 = count as u128;
    let n: u128 = m.num as u128;
    assert(0 <= c * n <= 0x7fff_ffff * 0x7fff_ffff_ffff_ffff) by (nonlinear_arith)
        requires
            0 <= c <= 0x7fff_ffff,
            0 <= n <= 0x7fff_ffff_ffff_ffff,
    ;
    let p: u128 = c * n;
    let ghost v0: int = count * m.num;
    let s1 = fit_mul(Some(p), d1 as u128, Ghost(v0));
    let s2 = fit_mul(s1, d2 as u128, Ghost(v0 * d1));
    assert(count == 0 ==> count * m.num * d1 * d2 == 0) by (nonlinear_arith);
    s2
}

/// The quantity of the ingredient line that a meal with the given head
/// counts needs, for a recipe written for `base_servings` people: the base
/// quantity times the head counts weighted by the multipliers, divided by
/// the base servings. `None` where the quantity cannot be represented.
pub fn required_quantity(
    line: &RecipeIngredient,
    base_servings: i32,
    children: i32,
    teens: i32,
    adults: i32,
) -> (r: Option<Ratio>)
    requires
        line.wf(),
        base_servings > 0,
        children >= 0,
        teens >= 0,
        adults >= 0,
    ensures
        r == required_quantity_spec(
            *line,
            base_servings as int,
            children as int,
            teens as int,
            adults as int,
        ),
        r is Some ==> r->0.wf() && r->0.num >= 0 && r->0.is_reduced(),
        (children == 0 && teens == 0 && adults == 0) ==> r == Some(Ratio::spec_zero()),
{
    let cm: Ratio = line.child_factor();
    let tm: Ratio = line.teen_factor();
    let am: Ratio = line.adult_factor();
    let ghost w: int = weighted_numerator(cm, tm, am, children as int, teens as int, adults as int);
    let ghost wd: int = weighted_denominator(cm, tm, am);
    let ghost n: int = required_numerator(*line, children as int, teens as int, adults as int);
    let ghost d: int = required_denominator(*line, base_servings as int);
    let t1 = weighted_term(children, &cm, tm.den, am.den);
    let t2 = weighted_term(teens, &tm, cm.den, am.den);
    let t3 = weighted_term(adults, &am, cm.den, tm.den);
    let ghost v1: int = children * cm.num * tm.den * am.den;
    let ghost v2: int = teens * tm.num * cm.den * am.den;
    let ghost v3: int = adults * am.num * cm.den * tm.den;
    let s12 = fit_add(t1, t2, Ghost(v1), Ghost(v2));
    let weighted = fit_add(s12, t3, Ghost(v1 + v2), Ghost(v3));
    assert(weighted == fit(w));
    assert(n == 0 <==> w == 0) by (nonlinear_arith)
        requires
            n == w * line.base_quantity.num,
            line.base_quantity.num > 0,
    ;
    match weighted {
        Some(0) => {
            proof {
                crate::ratio::lemma_whole_is_reduced(0);
            }
            return Some(Ratio { num: 0, den: 1 });
        },
        _ => {},
    }
    let numerator = fit_mul(weighted, line.base_quantity.num as u128, Ghost(w));
    let ghost cd: int = cm.den as int;
    let d1 = fit_mul(Some(cm.den as u128), tm.den as u128, Ghost(cd));
    let d2 = fit_mul(d1, am.den as u128, Ghost(cd * tm.den));
    let d3 = fit_mul(d2, line.base_quantity.den as u128, Ghost(wd));
    let denominator = fit_mul(d3, base_servings as u128, Ghost(wd * line.base_quantity.den));
    assert(denominator == fit(d));
    assert(d >= 1);
    match (numerator, denominator) {
        (Some(nn), Some(dd)) => {
            proof {
                lemma_reduced_value(n, d);
            }
            from_magnitude(false, nn, dd)
        },
        _ => None,
    }
}

/// A quantity that is returned denotes exactly
/// `required_numerator / required_denominator`, and is not negative.
pub proof fn lemma_required_quantity_value(
    line: RecipeIngredient,
    base_servings: int,
    children: int,
    teens: int,
    adults: int,
)
    requires
        line.wf(),
        base_servings > 0,
        children >= 0,
        teens >= 0,
        adults >= 0,
        required_quantity_spec(line, base_servings, children, teens, adults) is Some,
    ensures
        required_denominator(line, base_servings) > 0,
        required_numerator(line, children, teens, adults) >= 0,
        ({
            let q = required_quantity_spec(line, base_servings, children, teens, adults)->0;
            &&& q.wf()
            &&& q.num >= 0
            &&& q.is_value(
                required_numerator(line, children, teens, adults),
                required_denominator(line, base_servings),
            )
        }),
{
    let n = required_numerator(line, children, teens, adults);
    let d = required_denominator(line, base_servings);
    lemma_required_terms_sign(line, base_servings, children, teens, adults);
    if n != 0 {
        lemma_reduced_value(n, d);
    } else {
        assert(0 * d == 0 * 1) by (nonlinear_arith);
    }
}

/// The denominator of a required quantity is positive and its numerator is
/// not negative.
pub proof fn lemma_required_terms_sign(
    line: RecipeIngredient,
    base_servings: int,
    children: int,
    teens: int,
    adults: int,
)
    requires
        line.wf(),
        base_servings > 0,
        children >= 0,
        teens >= 0,
        adults >= 0,
    ensures
        required_denominator(line, base_servings) > 0,
        required_numerator(line, children, teens, adults) >= 0,
{
    let cm = line.effective_child();
    let tm = line.effective_teen();
    let am = line.effective_adult();
    assert(cm.den * tm.den * am.den * line.base_quantity.den * base_servings > 0)
        by (nonlinear_arith)
        requires
            cm.den >= 1,
            tm.den >= 1,
            am.den >= 1,
            line.base_quantity.den >= 1,
            base_servings >= 1,
    ;
    assert(children * cm.num * tm.den * am.den >= 0) by (nonlinear_arith)
        requires
            children >= 0,
            cm.num >= 0,
            tm.den >= 1,
            am.den >= 1,
    ;
    assert(teens * tm.num * cm.den * am.den >= 0) by (nonlinear_arith)
        requires
            teens >= 0,
            tm.num >= 0,
            cm.den >= 1,
            am.den >= 1,
    ;
    assert(adults * am.num * cm.den * tm.den >= 0) by (nonlinear_arith)
        requires
            adults >= 0,
            am.num >= 0,
            cm.den >= 1,
            tm.den >= 1,
    ;
    let w = weighted_numerator(cm, tm, am, children, teens, adults);
    assert(w * line.base_quantity.num >= 0) by (nonlinear_arith)
        requires
            w >= 0,
            line.base_quantity.num > 0,
    ;
}

/// The numerator is additive in the head counts; the denominator does not
/// depend on them.
pub proof fn lemma_numerator_additive(
    line: RecipeIngredient,
    c1: int,
    t1: int,
    a1: int,
    c2: int,
    t2: int,
    a2: int,
)
    ensures
        required_numerator(line, c1 + c2, t1 + t2, a1 + a2) == required_numerator(line, c1, t1, a1)
            + required_numerator(line, c2, t2, a2),
{
    let cm = line.effective_child();
    let tm = line.effective_teen();
    let am = line.effective_adult();
    let b = line.base_quantity.num as int;
    assert((c1 + c2) * cm.num * tm.den * am.den == c1 * cm.num * tm.den * am.den + c2 * cm.num
        * tm.den * am.den) by (nonlinear_arith);
    assert((t1 + t2) * tm.num * cm.den * am.den == t1 * tm.num * cm.den * am.den + t2 * tm.num
        * cm.den * am.den) by (nonlinear_arith);
    assert((a1 + a2) * am.num * cm.den * tm.den == a1 * am.num * cm.den * tm.den + a2 * am.num
        * cm.den * tm.den) by (nonlinear_arith);
    let w1 = weighted_numerator(cm, tm, am, c1, t1, a1);
    let w2 = weighted_numerator(cm, tm, am, c2, t2, a2);
    assert((w1 + w2) * b == w1 * b + w2 * b) by (nonlinear_arith);
}

/// Multiplying all three head counts by `k` multiplies the numerator by `k`.
pub proof fn lemma_numerator_scales(line: RecipeIngredient, k: int, c: int, t: int, a: int)
    ensures
        required_numerator(line, k * c, k * t, k * a) == k * required_numerator(line, c, t, a),
{
    let cm = line.effective_child();
    let tm = line.effective_teen();
    let am = line.effective_adult();
    let b = line.base_quantity.num as int;
    assert((k * c) * cm.num * tm.den * am.den == k * (c * cm.num * tm.den * am.den))
        by (nonlinear_arith);
    assert((k * t) * tm.num * cm.den * am.den == k * (t * tm.num * cm.den * am.den))
        by (nonlinear_arith);
    assert((k * a) * am.num * cm.den * tm.den == k * (a * am.num * cm.den * tm.den))
        by (nonlinear_arith);
    let w = weighted_numerator(cm, tm, am, c, t, a);
    let x1 = c * cm.num * tm.den * am.den;
    let x2 = t * tm.num * cm.den * am.den;
    let x3 = a * am.num * cm.den * tm.den;
    assert((k * x1 + k * x2 + k * x3) * b == k * ((x1 + x2 + x3) * b)) by (nonlinear_arith);
}

/// The quantity for the sum of two attendances is the sum of the quantities
/// for each, wherever all three are representable. With two of the three
/// head counts held at zero in the second attendance, this is linearity in
/// each head count on its own.
pub proof fn lemma_required_quantity_additive(
    line: RecipeIngredient,
    base_servings: int,
    c1: int,
    t1: int,
    a1: int,
    c2: int,
    t2: int,
    a2: int,
)
    requires
        line.wf(),
        base_servings > 0,
        c1 >= 0 && t1 >= 0 && a1 >= 0,
        c2 >= 0 && t2 >= 0 && a2 >= 0,
        required_quantity_spec(line, base_servings, c1, t1, a1) is Some,
        required_quantity_spec(line, base_servings, c2, t2, a2) is Some,
        required_quantity_spec(line, base_servings, c1 + c2, t1 + t2, a1 + a2) is Some,
    ensures
        ({
            let q1 = required_quantity_spec(line, base_servings, c1, t1, a1)->0;
            let q2 = required_quantity_spec(line, base_servings, c2, t2, a2)->0;
            let q = required_quantity_spec(line, base_servings, c1 + c2, t1 + t2, a1 + a2)->0;
            q.num * (q1.den * q2.den) == (q1.num * q2.den + q2.num * q1.den) * q.den
        }),
{
    let q1 = required_quantity_spec(line, base_servings, c1, t1, a1)->0;
    let q2 = required_quantity_spec(line, base_servings, c2, t2, a2)->0;
    let q = required_quantity_spec(line, base_servings, c1 + c2, t1 + t2, a1 + a2)->0;
    lemma_required_quantity_value(line, base_servings, c1, t1, a1);
    lemma_required_quantity_value(line, base_servings, c2, t2, a2);
    lemma_required_quantity_value(line, base_servings, c1 + c2, t1 + t2, a1 + a2);
    lemma_numerator_additive(line, c1, t1, a1, c2, t2, a2);
    crate::ratio::lemma_value_add(
        q1,
        q2,
        q,
        required_numerator(line, c1, t1, a1),
        required_numerator(line, c2, t2, a2),
        required_denominator(line, base_servings),
    );
}

/// Multiplying all three head counts by `k` multiplies the quantity by `k`,
/// wherever both quantities are representable; with `k == 2`, doubling the
/// attendance doubles the quantity.
pub proof fn lemma_required_quantity_scales(
    line: RecipeIngredient,
    base_servings: int,
    k: int,
    children: int,
    teens: int,
    adults: int,
)
    requires
        line.wf(),
        base_servings > 0,
        k >= 0,
        children >= 0 && teens >= 0 && adults >= 0,
        required_quantity_spec(line, base_servings, children, teens, adults) is Some,
        required_quantity_spec(line, base_servings, k * children, k * teens, k * adults) is Some,
    ensures
        ({
            let q = required_quantity_spec(line, base_servings, children, teens, adults)->0;
            let qk = required_quantity_spec(
                line,
                base_servings,
                k * children,
                k * teens,
                k * adults,
            )->0;
            qk.num * q.den == k * q.num * qk.den
        }),
{
    let q = required_quantity_spec(line, base_servings, children, teens, adults)->0;
    let qk = required_quantity_spec(line, base_servings, k * children, k * teens, k * adults)->0;
    assert(k * children >= 0 && k * teens >= 0 && k * adults >= 0) by (nonlinear_arith)
        requires
            k >= 0,
            children >= 0,
            teens >= 0,
            adults >= 0,
    ;
    lemma_required_quantity_value(line, base_servings, children, teens, adults);
    lemma_required_quantity_value(line, base_servings, k * children, k * teens, k * adults);
    lemma_numerator_scales(line, k, children, teens, adults);
    crate::ratio::lemma_value_scale(
        q,
        qk,
        required_numerator(line, children, teens, adults),
        k,
        required_denominator(line, base_servings),
    );
}

/// With nobody attending, the quantity is zero, whatever the line and the
/// base servings.
pub proof fn lemma_zero_attendance(line: RecipeIngredient, base_servings: int)
    ensures
        required_quantity_spec(line, base_servings, 0, 0, 0) == Some(Ratio::spec_zero()),
{
    let cm = line.effective_child();
    let tm = line.effective_teen();
    let am = line.effective_adult();
    assert(0 * cm.num * tm.den * am.den == 0) by (nonlinear_arith);
    assert(0 * tm.num * cm.den * am.den == 0) by (nonlinear_arith);
    assert(0 * am.num * cm.den * tm.den == 0) by (nonlinear_arith);
    assert(0 * line.base_quantity.num == 0) by (nonlinear_arith);
}

/// A line that sets no multiplier needs the same quantity as the line that
/// sets one half for children, three quarters for teens and one for adults.
pub proof fn lemma_default_multipliers(
    line: RecipeIngredient,
    base_servings: int,
    children: int,
    teens: int,
    adults: int,
)
    requires
        line.child_multiplier is None,
        line.teen_multiplier is None,
        line.adult_multiplier is None,
    ensures
        required_quantity_spec(line, base_servings, children, teens, adults)
            == required_quantity_spec(
            RecipeIngredient {
                child_multiplier: Some(Ratio { num: 1, den: 2 }),
                teen_multiplier: Some(Ratio { num: 3, den: 4 }),
                adult_multiplier: Some(Ratio { num: 1, den: 1 }),
                ..line
            },
            base_servings,
            children,
            teens,
            adults,
        ),
{
}

/// A line whose multiplier for adults is one needs, for `adults` adults and
/// nobody else, exactly `adults * base_quantity / base_servings`.
pub proof fn lemma_adults_only(line: RecipeIngredient, base_servings: int, adults: int)
    requires
        line.wf(),
        base_servings > 0,
        adults >= 0,
        line.effective_adult() == Ratio::spec_one(),
        required_quantity_spec(line, base_servings, 0, 0, adults) is Some,
    ensures
        required_quantity_spec(line, base_servings, 0, 0, adults)->0.is_value(
            adults * line.base_quantity.num,
            line.base_quantity.den * base_servings,
        ),
{
    let cm = line.effective_child();
    let tm = line.effective_teen();
    let bn = line.base_quantity.num as int;
    let bd = line.base_quantity.den as int;
    let k = cm.den * tm.den;
    lemma_required_quantity_value(line, base_servings, 0, 0, adults);
    assert(k > 0) by (nonlinear_arith)
        requires
            k == cm.den * tm.den,
            cm.den >= 1,
            tm.den >= 1,
    ;
    assert(0 * cm.num * tm.den * 1 == 0) by (nonlinear_arith);
    assert(0 * tm.num * cm.den * 1 == 0) by (nonlinear_arith);
    assert(adults * 1 * cm.den * tm.den == adults * k) by (nonlinear_arith)
        requires
            k == cm.den * tm.den,
    ;
    assert((adults * k) * bn == k * (adults * bn)) by (nonlinear_arith);
    assert(cm.den * tm.den * 1 * bd * base_servings == k * (bd * base_servings))
        by (nonlinear_arith)
        requires
            k == cm.den * tm.den,
    ;
    crate::ratio::lemma_value_cancel_factor(
        required_quantity_spec(line, base_servings, 0, 0, adults)->0,
        k,
        adults * bn,
        bd * base_servings,
    );
}

/// A line whose multiplier for children is one needs, for `children`
/// children and nobody else, exactly `children * base_quantity /
/// base_servings`.
pub proof fn lemma_children_only(line: RecipeIngredient, base_servings: int, children: int)
    requires
        line.wf(),
        base_servings > 0,
        children >= 0,
        line.effective_child() == Ratio::spec_one(),
        required_quantity_spec(line, base_servings, children, 0, 0) is Some,
    ensures
        required_quantity_spec(line, base_servings, children, 0, 0)->0.is_value(
            children * line.base_quantity.num,
            line.base_quantity.den * base_servings,
        ),
{
    let tm = line.effective_teen();
    let am = line.effective_adult();
    let bn = line.base_quantity.num as int;
    let bd = line.base_quantity.den as int;
    let k = tm.den * am.den;
    lemma_required_quantity_value(line, base_servings, children, 0, 0);
    assert(k > 0) by (nonlinear_arith)
        requires
            k == tm.den * am.den,
            tm.den >= 1,
            am.den >= 1,
    ;
    assert(0 * tm.num * 1 * am.den == 0) by (nonlinear_arith);
    assert(0 * am.num * 1 * tm.den == 0) by (nonlinear_arith);
    assert(children * 1 * tm.den * am.den == children * k) by (nonlinear_arith)
        requires
            k == tm.den * am.den,
    ;
    assert((children * k) * bn == k * (children * bn)) by (nonlinear_arith);
    assert(1 * tm.den * am.den * bd * base_servings == k * (bd * base_servings))
        by (nonlinear_arith)
        requires
            k == tm.den * am.den,
    ;
    crate::ratio::lemma_value_cancel_factor(
        required_quantity_spec(line, base_servings, children, 0, 0)->0,
        k,
        children * bn,
        bd * base_servings,
    );
}

/// A line whose multiplier for teens is one needs, for `teens` teens and
/// nobody else, exactly `teens * base_quantity / base_servings`.
pub proof fn lemma_teens_only(line: RecipeIngredient, base_servings: int, teens: int)
    requires
        line.wf(),
        base_servings > 0,
        teens >= 0,
        line.effective_teen() == Ratio::spec_one(),
        required_quantity_spec(line, base_servings, 0, teens, 0) is Some,
    ensures
        required_quantity_spec(line, base_servings, 0, teens, 0)->0.is_value(
            teens * line.base_quantity.num,
            line.base_quantity.den * base_servings,
        ),
{
    let cm = line.effective_child();
    let am = line.effective_adult();
    let bn = line.base_quantity.num as int;
    let bd = line.base_quantity.den as int;
    let k = cm.den * am.den;
    lemma_required_quantity_value(line, base_servings, 0, teens, 0);
    assert(k > 0) by (nonlinear_arith)
        requires
            k == cm.den * am.den,
            cm.den >= 1,
            am.den >= 1,
    ;
    assert(0 * cm.num * 1 * am.den == 0) by (nonlinear_arith);
    assert(0 * am.num * cm.den * 1 == 0) by (nonlinear_arith);
    assert(teens * 1 * cm.den * am.den == teens * k) by (nonlinear_arith)
        requires
            k == cm.den * am.den,
    ;
    assert((teens * k) * bn == k * (teens * bn)) by (nonlinear_arith);
    assert(cm.den * 1 * am.den * bd * base_servings == k * (bd * base_servings))
        by (nonlinear_arith)
        requires
            k == cm.den * am.den,
    ;
    crate::ratio::lemma_value_cancel_factor(
        required_quantity_spec(line, base_servings, 0, teens, 0)->0,
        k,
        teens * bn,
        bd * base_servings,
    );
}

/// A quantity that is returned is in lowest terms, so two quantities that
/// are the same number are equal.
pub proof fn lemma_required_quantity_reduced(
    line: RecipeIngredient,
    base_servings: int,
    children: int,
    teens: int,
    adults: int,
)
    requires
        line.wf(),
        base_servings > 0,
        children >= 0,
        teens >= 0,
        adults >= 0,
        required_quantity_spec(line, base_servings, children, teens, adults) is Some,
    ensures
        required_quantity_spec(line, base_servings, children, teens, adults)->0.is_reduced(),
{
    let n = required_numerator(line, children, teens, adults);
    let d = required_denominator(line, base_servings);
    lemma_required_terms_sign(line, base_servings, children, teens, adults);
    if n == 0 {
        crate::ratio::lemma_whole_is_reduced(0);
    } else {
        crate::ratio::lemma_normalize_reduced(n, d);
    }
}

/// The terms of the ratio are at most `bound`, and the ratio is not
/// negative.
pub open spec fn terms_within(r: Ratio, bound: int) -> bool {
    0 <= r.num <= bound && 1 <= r.den <= bound
}

/// A quantity of moderate size is always returned: with head counts and
/// base servings up to 100 000, a base quantity whose terms are at most a
/// million, and multipliers whose terms are at most a hundred, there is a
/// result.
pub proof fn lemma_required_quantity_fits(
    line: RecipeIngredient,
    base_servings: int,
    children: int,
    teens: int,
    adults: int,
)
    requires
        line.wf(),
        0 < base_servings <= 100_000,
        0 <= children <= 100_000,
        0 <= teens <= 100_000,
        0 <= adults <= 100_000,
        terms_within(line.base_quantity, 1_000_000),
        terms_within(line.effective_child(), 100),
        terms_within(line.effective_teen(), 100),
        terms_within(line.effective_adult(), 100),
    ensures
        required_quantity_spec(line, base_servings, children, teens, adults) is Some,
{
    let cm = line.effective_child();
    let tm = line.effective_teen();
    let am = line.effective_adult();
    let bn = line.base_quantity.num as int;
    let bd = line.base_quantity.den as int;
    let n = required_numerator(line, children, teens, adults);
    let d = required_denominator(line, base_servings);
    lemma_required_terms_sign(line, base_servings, children, teens, adults);
    lemma_product_of_four(children, cm.num as int, tm.den as int, am.den as int);
    lemma_product_of_four(teens, tm.num as int, cm.den as int, am.den as int);
    lemma_product_of_four(adults, am.num as int, cm.den as int, tm.den as int);
    let w = weighted_numerator(cm, tm, am, children, teens, adults);
    assert(0 <= w <= 300_000_000_000);
    assert(0 <= w * bn <= 300_000_000_000 * 1_000_000) by (nonlinear_arith)
        requires
            0 <= w <= 300_000_000_000,
            0 <= bn <= 1_000_000,
    ;
    let wd = weighted_denominator(cm, tm, am);
    assert(1 <= wd <= 1_000_000) by (nonlinear_arith)
        requires
            wd == cm.den * tm.den * am.den,
            1 <= cm.den <= 100,
            1 <= tm.den <= 100,
            1 <= am.den <= 100,
    ;
    assert(1 <= wd * bd <= 1_000_000 * 1_000_000) by (nonlinear_arith)
        requires
            1 <= wd <= 1_000_000,
            1 <= bd <= 1_000_000,
    ;
    let x = wd * bd;
    assert(1 <= x * base_servings <= 1_000_000 * 1_000_000 * 100_000) by (nonlinear_arith)
        requires
            1 <= x <= 1_000_000 * 1_000_000,
            1 <= base_servings <= 100_000,
    ;
    if n != 0 {
        lemma_reduced_value(n, d);
    }
}

/// A product of a head count and three terms of multipliers is at most
/// 100 000 times a million.
proof fn lemma_product_of_four(count: int, a: int, b: int, c: int)
    requires
        0 <= count <= 100_000,
        0 <= a <= 100,
        0 <= b <= 100,
        0 <= c <= 100,
    ensures
        0 <= count * a * b * c <= 100_000_000_000,
{
    let x = count * a;
    assert(0 <= x <= 10_000_000) by (nonlinear_arith)
        requires
            x == count * a,
            0 <= count <= 100_000,
            0 <= a <= 100,
    ;
    let y = x * b;
    assert(0 <= y <= 1_000_000_000) by (nonlinear_arith)
        requires
            y == x * b,
            0 <= x <= 10_000_000,
            0 <= b <= 100,
    ;
    assert(0 <= y * c <= 100_000_000_000) by (nonlinear_arith)
        requires
            0 <= y <= 1_000_000_000,
            0 <= c <= 100,
    ;
}

} // verus!
