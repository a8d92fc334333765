//! Normalisation of legacy recipe data: from raw quantities per age group
//! to one base quantity and three multipliers.

use vstd::prelude::*;
use crate::ratio::Ratio;

verus! {

/// Why legacy data could not be normalised.
#[derive(Clone, Copy, Debug, PartialEq, Eq, Structural)]
pub enum ImportError {
    /// A quantity or a multiplier cannot be represented.
    Overflow,
}

/// The base quantity per person of an ingredient and the multipliers of the
/// three age bands.
#[derive(Clone, Copy, Debug, PartialEq, Eq, Structural)]
pub struct Multipliers {
    pub base_quantity: Ratio,
    pub child_multiplier: Ratio,
    pub teen_multiplier: Ratio,
    pub adult_multiplier: Ratio,
}

/// The raw quantities of one ingredient of a legacy recipe: what is written
/// for everybody, and what is written for children, teens and adults only.
#[derive(Clone, Copy, Debug, PartialEq, Eq, Structural)]
pub struct RawQuantities {
    pub general: Ratio,
    pub child: Ratio,
    pub teen: Ratio,
    pub adult: Ratio,
}

impl RawQuantities {
    /// The four quantities are well formed.
    pub open spec fn wf(self) -> bool {
        self.general.wf() && self.child.wf() && self.teen.wf() && self.adult.wf()
    }
}

impl Multipliers {
    /// The four ratios are well formed.
    pub open spec fn wf(self) -> bool {
        &&& self.base_quantity.wf()
        &&& self.child_multiplier.wf()
        &&& self.teen_multiplier.wf()
        &&& self.adult_multiplier.wf()
    }
}

/// The quantity per person of one age band: `band / porci + general /
/// porci`, the general quantity being shared by all.
pub open spec fn per_person(band: Ratio, general: Ratio, porci: Ratio) -> Option<Ratio> {
    match (band.spec_checked_div(porci), general.spec_checked_div(porci)) {
        (Some(own), Some(shared)) => own.spec_checked_add(shared),
        _ => None,
    }
}

/// The multipliers from the three quantities per person. The first band
/// that is present, adults before children before teens, is the reference
/// with multiplier one, and the others are expressed relative to it; where
/// no band is present there is nothing to store.
pub open spec fn multipliers_from(adult_per: Ratio, child_per: Ratio, teen_per: Ratio) -> Result<
    Option<Multipliers>,
    ImportError,
> {
    if adult_per.num > 0 {
        match (child_per.spec_checked_div(adult_per), teen_per.spec_checked_div(adult_per)) {
            (Some(child), Some(teen)) => Ok(
                Some(
                    Multipliers {
                        base_quantity: adult_per,
                        child_multiplier: child,
                        teen_multiplier: teen,
                        adult_multiplier: Ratio::spec_one(),
                    },
                ),
            ),
            _ => Err(ImportError::Overflow),
        }
    } else if child_per.num > 0 {
        match teen_per.spec_checked_div(child_per) {
            Some(teen) => Ok(
                Some(
                    Multipliers {
                        base_quantity: child_per,
                        child_multiplier: Ratio::spec_one(),
                        teen_multiplier: teen,
                        adult_multiplier: Ratio::spec_zero(),
                    },
                ),
            ),
            None => Err(ImportError::Overflow),
        }
    } else if teen_per.num > 0 {
        Ok(
            Some(
                Multipliers {
                    base_quantity: teen_per,
                    child_multiplier: Ratio::spec_zero(),
                    teen_multiplier: Ratio::spec_one(),
                    adult_multiplier: Ratio::spec_zero(),
                },
            ),
        )
    } else {
        Ok(None)
    }
}

/// The multipliers of an ingredient from its raw quantities and `porci`, the
/// head count that the raw quantities are written for.
pub open spec fn normalized(raw: RawQuantities, porci: Ratio) -> Result<
    Option<Multipliers>,
    ImportError,
> {
    match (
        per_person(raw.adult, raw.general, porci),
        per_person(raw.child, raw.general, porci),
        per_person(raw.teen, raw.general, porci),
    ) {
        (Some(adult_per), Some(child_per), Some(teen_per)) => multipliers_from(
            adult_per,
            child_per,
            teen_per,
        ),
        _ => Err(ImportError::Overflow),
    }
}

/// The quantity per person of one age band.
pub fn quantity_per_person(band: &Ratio, general: &Ratio, porci: &Ratio) -> (r: Option<Ratio>)
    requires
        band.wf(),
        general.wf(),
        porci.wf(),
    ensures
        r == per_person(*band, *general, *porci),
        r is Some ==> r->0.wf(),
{
    match (band.checked_div(porci), general.checked_div(porci)) {
        (Some(own), Some(shared)) => own.checked_add(&shared),
        _ => None,
    }
}

/// The multipliers from the three quantities per person.
pub fn derive_multipliers(adult_per: &Ratio, child_per: &Ratio, teen_per: &Ratio) -> (r: Result<
    Option<Multipliers>,
    ImportError,
>)
    requires
        adult_per.wf(),
        child_per.wf(),
        teen_per.wf(),
    ensures
        r == multipliers_from(*adult_per, *child_per, *teen_per),
        r is Ok && r->Ok_0 is Some ==> r->Ok_0->0.wf(),
{
    if adult_per.is_positive() {
        match (child_per.checked_div(adult_per), teen_per.checked_div(adult_per)) {
            (Some(child), Some(teen)) => Ok(
                Some(
                    Multipliers {
                        base_quantity: *adult_per,
                        child_multiplier: child,
                        teen_multiplier: teen,
                        adult_multiplier: Ratio::one(),
                    },
                ),
            ),
            _ => Err(ImportError::Overflow),
        }
    } else if child_per.is_positive() {
        match teen_per.checked_div(child_per) {
            Some(teen) => Ok(
                Some(
                    Multipliers {
                        base_quantity: *child_per,
                        child_multiplier: Ratio::one(),
                        teen_multiplier: teen,
                        adult_multiplier: Ratio::zero(),
                    },
                ),
            ),
            None => Err(ImportError::Overflow),
        }
    } else if teen_per.is_positive() {
        Ok(
            Some(
                Multipliers {
                    base_quantity: *teen_per,
                    child_multiplier: Ratio::zero(),
                    teen_multiplier: Ratio::one(),
                    adult_multiplier: Ratio::zero(),
                },
            ),
        )
    } else {
        Ok(None)
    }
}

/// The multipliers of an ingredient from its raw quantities and `porci`.
/// `Ok(None)` says that the ingredient is present in no band and is left
/// out.
pub fn normalize_quantities(raw: &RawQuantities, porci: &Ratio) -> (r: Result<
    Option<Multipliers>,
    ImportError,
>)
    requires
        raw.wf(),
        porci.wf(),
    ensures
        r == normalized(*raw, *porci),
        r is Ok && r->Ok_0 is Some ==> r->Ok_0->0.wf(),
        (porci.num > 0 && raw.general.num == 0 && raw.child.num == 0 && raw.teen.num == 0
            && raw.adult.num == 0) ==> r == Ok::<Option<Multipliers>, ImportError>(None),
{
    proof {
        if porci.num > 0 && raw.general.num == 0 && raw.child.num == 0 && raw.teen.num == 0
            && raw.adult.num == 0 {
            lemma_all_zero_is_skipped(*raw, *porci);
        }
    }
    let adult_per = quantity_per_person(&raw.adult, &raw.general, porci);
    let child_per = quantity_per_person(&raw.child, &raw.general, porci);
    let teen_per = quantity_per_person(&raw.teen, &raw.general, porci);
    match (adult_per, child_per, teen_per) {
        (Some(a), Some(c), Some(t)) => derive_multipliers(&a, &c, &t),
        _ => Err(ImportError::Overflow),
    }
}

/// Zero divided by a positive ratio is zero.
pub proof fn lemma_zero_divided(zero: Ratio, porci: Ratio)
    requires
        zero.wf(),
        porci.wf(),
        zero.num == 0,
        porci.num > 0,
    ensures
        zero.spec_checked_div(porci) == Some(Ratio::spec_zero()),
{
    assert(zero.num * porci.den == 0) by (nonlinear_arith)
        requires
            zero.num == 0,
    ;
    assert(zero.den * porci.num > 0) by (nonlinear_arith)
        requires
            zero.den >= 1,
            porci.num >= 1,
    ;
    crate::ratio::lemma_reduced_value(0, zero.den * porci.num);
}

/// Where all four raw quantities are zero, nothing is stored for the
/// ingredient.
pub proof fn lemma_all_zero_is_skipped(raw: RawQuantities, porci: Ratio)
    requires
        raw.wf(),
        porci.wf(),
        porci.num > 0,
        raw.general.num == 0,
        raw.child.num == 0,
        raw.teen.num == 0,
        raw.adult.num == 0,
    ensures
        normalized(raw, porci) == Ok::<Option<Multipliers>, ImportError>(None),
{
    lemma_zero_divided(raw.general, porci);
    lemma_zero_divided(raw.child, porci);
    lemma_zero_divided(raw.teen, porci);
    lemma_zero_divided(raw.adult, porci);
    let z = Ratio::spec_zero();
    assert(z.num * z.den + z.num * z.den == 0);
    assert(z.den * z.den == 1);
    crate::ratio::lemma_reduced_value(0, 1);
    assert(z.spec_checked_add(z) == Some(z));
}

} // verus!
