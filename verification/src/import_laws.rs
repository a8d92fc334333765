//! What holds of every normalised ingredient: scaled back to the head count
//! that the legacy recipe was written for, it gives the quantities that the
//! recipe lists.

use vstd::prelude::*;
use vstd::arithmetic::mul::{lemma_mul_is_associative, lemma_mul_is_commutative};
use crate::normalizer::{multipliers_from, per_person, Multipliers};
use crate::ratio::{
    lemma_checked_add_value, lemma_checked_div_value, lemma_same_fraction_add,
    lemma_same_fraction_scale, lemma_same_fraction_transitive, lemma_swap_last,
    lemma_value_cancel_factor, Ratio,
};
use crate::recipe::RecipeIngredient;
use crate::scaling::{
    lemma_adults_only, lemma_children_only, lemma_teens_only, required_quantity_spec,
};

verus! {

/// The line that is stored for an ingredient with the given multipliers.
pub open spec fn stored_line(m: Multipliers, unit: String) -> RecipeIngredient {
    RecipeIngredient {
        id: 0,
        recipe_id: 0,
        ingredient_id: 0,
        base_quantity: m.base_quantity,
        unit,
        child_multiplier: Some(m.child_multiplier),
        teen_multiplier: Some(m.teen_multiplier),
        adult_multiplier: Some(m.adult_multiplier),
        notes: None,
    }
}

/// The quantity per person of a band is exactly `(band + general) / porci`,
/// for a whole number `porci` of people.
pub proof fn lemma_per_person_value(band: Ratio, general: Ratio, porci: int)
    requires
        band.wf(),
        general.wf(),
        0 < porci <= i32::MAX,
        per_person(band, general, Ratio::spec_from_int(porci as i32)) is Some,
    ensures
        ({
            let p = per_person(band, general, Ratio::spec_from_int(porci as i32))->0;
            &&& p.wf()
            &&& p.is_value(
                band.num * (general.den * porci) + general.num * (band.den * porci),
                (band.den * porci) * (general.den * porci),
            )
            &&& (band.den * porci) * (general.den * porci) > 0
        }),
{
    let r = Ratio::spec_from_int(porci as i32);
    let own = band.spec_checked_div(r)->0;
    let shared = general.spec_checked_div(r)->0;
    let p = per_person(band, general, r)->0;
    lemma_checked_div_value(band, r);
    lemma_checked_div_value(general, r);
    lemma_checked_add_value(own, shared);
    assert(band.num * 1 == band.num);
    assert(general.num * 1 == general.num);
    let bd = band.den * porci;
    let gd = general.den * porci;
    assert(bd > 0 && gd > 0 && bd * gd > 0) by (nonlinear_arith)
        requires
            bd == band.den * porci,
            gd == general.den * porci,
            band.den >= 1,
            general.den >= 1,
            porci >= 1,
    ;
    assert(own.den * shared.den > 0) by (nonlinear_arith)
        requires
            own.den >= 1,
            shared.den >= 1,
    ;
    lemma_same_fraction_add(
        own.num as int,
        own.den as int,
        band.num as int,
        bd,
        shared.num as int,
        shared.den as int,
        general.num as int,
        gd,
    );
    lemma_same_fraction_transitive(
        p.num as int,
        p.den as int,
        own.num * shared.den + shared.num * own.den,
        own.den * shared.den,
        band.num * gd + general.num * bd,
        bd * gd,
    );
}

/// `porci` times the quantity per person of a band is what the recipe lists
/// for that band: its own quantity and the general one.
proof fn lemma_scaled_back(q: Ratio, base: Ratio, band: Ratio, general: Ratio, porci: int)
    requires
        porci > 0,
        band.wf(),
        general.wf(),
        base.wf(),
        q.is_value(porci * base.num, base.den * 1),
        base.is_value(
            band.num * (general.den * porci) + general.num * (band.den * porci),
            (band.den * porci) * (general.den * porci),
        ),
    ensures
        q.is_value(
            band.num * general.den + general.num * band.den,
            band.den * general.den,
        ),
{
    let an = band.num as int;
    let ad = band.den as int;
    let gn = general.num as int;
    let gd = general.den as int;
    let bn = an * (gd * porci) + gn * (ad * porci);
    let bd = (ad * porci) * (gd * porci);
    let target_n = an * gd + gn * ad;
    let target_d = ad * gd;
    let k = porci * porci;
    assert(k > 0) by (nonlinear_arith)
        requires
            k == porci * porci,
            porci > 0,
    ;
    assert(base.den * 1 == base.den);
    lemma_same_fraction_scale(porci, base.num as int, base.den as int, bn, bd);
    lemma_same_fraction_transitive(
        q.num as int,
        q.den as int,
        porci * base.num,
        base.den as int,
        porci * bn,
        bd,
    );
    // porci * bn == k * target_n and bd == k * target_d
    assert(an * (gd * porci) == (an * gd) * porci) by {
        lemma_mul_is_associative(an, gd, porci);
    }
    assert(gn * (ad * porci) == (gn * ad) * porci) by {
        lemma_mul_is_associative(gn, ad, porci);
    }
    assert(bn == target_n * porci) by (nonlinear_arith)
        requires
            bn == (an * gd) * porci + (gn * ad) * porci,
            target_n == an * gd + gn * ad,
    ;
    assert(porci * bn == k * target_n) by {
        lemma_mul_is_commutative(target_n, porci);
        lemma_mul_is_associative(porci, porci, target_n);
    }
    assert(bd == k * target_d) by {
        lemma_mul_is_associative(ad * porci, gd, porci);
        lemma_swap_last(ad, porci, gd);
        lemma_mul_is_associative(ad * gd, porci, porci);
        lemma_mul_is_commutative(ad * gd, porci * porci);
    }
    lemma_value_cancel_factor(q, k, target_n, target_d);
}

/// With adults as the reference: where the adults have a
/// quantity, the stored line, scaled to `porci` adults for a recipe of one
/// serving, gives exactly what the legacy recipe lists for adults: their own
/// quantity and the general one.
pub proof fn lemma_round_trip_adults(
    general: Ratio,
    child_per: Ratio,
    teen_per: Ratio,
    adult: Ratio,
    porci: int,
    unit: String,
)
    requires
        general.wf(),
        adult.wf(),
        child_per.wf(),
        teen_per.wf(),
        0 < porci <= i32::MAX,
        per_person(adult, general, Ratio::spec_from_int(porci as i32)) is Some,
        per_person(adult, general, Ratio::spec_from_int(porci as i32))->0.num > 0,
        child_per.num >= 0,
        teen_per.num >= 0,
        multipliers_from(
            per_person(adult, general, Ratio::spec_from_int(porci as i32))->0,
            child_per,
            teen_per,
        ) is Ok,
        required_quantity_spec(
            stored_line(
                multipliers_from(
                    per_person(adult, general, Ratio::spec_from_int(porci as i32))->0,
                    child_per,
                    teen_per,
                )->Ok_0->0,
                unit,
            ),
            1,
            0,
            0,
            porci,
        ) is Some,
    ensures
        required_quantity_spec(
            stored_line(
                multipliers_from(
                    per_person(adult, general, Ratio::spec_from_int(porci as i32))->0,
                    child_per,
                    teen_per,
                )->Ok_0->0,
                unit,
            ),
            1,
            0,
            0,
            porci,
        )->0.is_value(adult.num * general.den + general.num * adult.den, adult.den * general.den),
{
    let adult_per = per_person(adult, general, Ratio::spec_from_int(porci as i32))->0;
    let m = multipliers_from(adult_per, child_per, teen_per)->Ok_0->0;
    let line = stored_line(m, unit);
    lemma_per_person_value(adult, general, porci);
    lemma_checked_div_value(child_per, adult_per);
    lemma_checked_div_value(teen_per, adult_per);
    assert(line.wf());
    lemma_adults_only(line, 1, porci);
    let q = required_quantity_spec(line, 1, 0, 0, porci)->0;
    lemma_scaled_back(q, adult_per, adult, general, porci);
}

/// With children as the reference: where the adults have
/// nothing and the children have a quantity, the stored line, scaled to
/// `porci` children for a recipe of one serving, gives exactly what the
/// legacy recipe lists for children.
pub proof fn lemma_round_trip_children(
    general: Ratio,
    child: Ratio,
    teen_per: Ratio,
    adult_per: Ratio,
    porci: int,
    unit: String,
)
    requires
        general.wf(),
        child.wf(),
        teen_per.wf(),
        adult_per.wf(),
        0 < porci <= i32::MAX,
        adult_per.num <= 0,
        teen_per.num >= 0,
        per_person(child, general, Ratio::spec_from_int(porci as i32)) is Some,
        per_person(child, general, Ratio::spec_from_int(porci as i32))->0.num > 0,
        multipliers_from(
            adult_per,
            per_person(child, general, Ratio::spec_from_int(porci as i32))->0,
            teen_per,
        ) is Ok,
        required_quantity_spec(
            stored_line(
                multipliers_from(
                    adult_per,
                    per_person(child, general, Ratio::spec_from_int(porci as i32))->0,
                    teen_per,
                )->Ok_0->0,
                unit,
            ),
            1,
            porci,
            0,
            0,
        ) is Some,
    ensures
        required_quantity_spec(
            stored_line(
                multipliers_from(
                    adult_per,
                    per_person(child, general, Ratio::spec_from_int(porci as i32))->0,
                    teen_per,
                )->Ok_0->0,
                unit,
            ),
            1,
            porci,
            0,
            0,
        )->0.is_value(child.num * general.den + general.num * child.den, child.den * general.den),
{
    let child_per = per_person(child, general, Ratio::spec_from_int(porci as i32))->0;
    let m = multipliers_from(adult_per, child_per, teen_per)->Ok_0->0;
    let line = stored_line(m, unit);
    lemma_per_person_value(child, general, porci);
    lemma_checked_div_value(teen_per, child_per);
    assert(line.wf());
    lemma_children_only(line, 1, porci);
    let q = required_quantity_spec(line, 1, porci, 0, 0)->0;
    lemma_scaled_back(q, child_per, child, general, porci);
}

/// With teens as the reference: where only the teens have a
/// quantity, the stored line, scaled to `porci` teens for a recipe of one
/// serving, gives exactly what the legacy recipe lists for teens.
pub proof fn lemma_round_trip_teens(
    general: Ratio,
    teen: Ratio,
    child_per: Ratio,
    adult_per: Ratio,
    porci: int,
    unit: String,
)
    requires
        general.wf(),
        teen.wf(),
        child_per.wf(),
        adult_per.wf(),
        0 < porci <= i32::MAX,
        adult_per.num <= 0,
        child_per.num <= 0,
        per_person(teen, general, Ratio::spec_from_int(porci as i32)) is Some,
        per_person(teen, general, Ratio::spec_from_int(porci as i32))->0.num > 0,
        required_quantity_spec(
            stored_line(
                multipliers_from(
                    adult_per,
                    child_per,
                    per_person(teen, general, Ratio::spec_from_int(porci as i32))->0,
                )->Ok_0->0,
                unit,
            ),
            1,
            0,
            porci,
            0,
        ) is Some,
    ensures
        required_quantity_spec(
            stored_line(
                multipliers_from(
                    adult_per,
                    child_per,
                    per_person(teen, general, Ratio::spec_from_int(porci as i32))->0,
                )->Ok_0->0,
                unit,
            ),
            1,
            0,
            porci,
            0,
        )->0.is_value(teen.num * general.den + general.num * teen.den, teen.den * general.den),
{
    let teen_per = per_person(teen, general, Ratio::spec_from_int(porci as i32))->0;
    let m = multipliers_from(adult_per, child_per, teen_per)->Ok_0->0;
    let line = stored_line(m, unit);
    lemma_per_person_value(teen, general, porci);
    assert(line.wf());
    lemma_teens_only(line, 1, porci);
    let q = required_quantity_spec(line, 1, 0, porci, 0)->0;
    lemma_scaled_back(q, teen_per, teen, general, porci);
}

} // verus!
