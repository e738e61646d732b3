use vstd::prelude::*;

verus! {

/// A third, rounded toward zero, as machine signed division rounds.
pub open spec fn third_toward_zero(n: int) -> int {
    if n >= 0 {
        n / 3
    } else {
        -((-n) / 3)
    }
}

/// Fuel needed to lift a module of the given mass: a third, rounded toward
/// zero, less two.
pub open spec fn fuel_for(mass: int) -> int {
    third_toward_zero(mass) - 2
}

/// Total fuel when the added fuel must be lifted too: the sum of the chain
/// of fuel masses while they stay positive; zero as soon as the chain turns
/// nonpositive, so zero for any mass below nine.
pub open spec fn total_fuel(mass: int) -> int
    decreases (if mass > 0 {
        mass
    } else {
        0
    }),
{
    if fuel_for(mass) > 0 {
        fuel_for(mass) + total_fuel(fuel_for(mass))
    } else {
        0
    }
}

pub proof fn lemma_total_fuel_bounds(mass: int)
    ensures
        0 <= total_fuel(mass),
        total_fuel(mass) <= (if mass > 0 {
            mass
        } else {
            0
        }),
    decreases (if mass > 0 {
        mass
    } else {
        0
    }),
{
    if fuel_for(mass) > 0 {
        lemma_total_fuel_bounds(fuel_for(mass));
    }
}

pub fn calculate_fuel(mass: i32) -> (r: i32)
    ensures
        r as int == fuel_for(mass as int),
{
    mass / 3 - 2
}

pub fn calculate_fuel_part_2(mass: i32) -> (r: i32)
    ensures
        r as int == total_fuel(mass as int),
{
    proof {
        lemma_total_fuel_bounds(mass as int);
    }
    let mut fuel_mass = calculate_fuel(mass);
    let mut total_fuel_mass: i32 = 0;
    while fuel_mass > 0
        invariant
            total_fuel_mass >= 0,
            fuel_mass >= i32::MIN as int + 2,
            total_fuel_mass as int + (if fuel_mass > 0 {
                fuel_mass as int + total_fuel(fuel_mass as int)
            } else {
                0
            }) == total_fuel(mass as int),
            total_fuel(mass as int) <= (if mass > 0 {
                mass as int
            } else {
                0
            }),
        decreases (if fuel_mass > 0 {
            fuel_mass as int
        } else {
            0
        }),
    {
        proof {
            lemma_total_fuel_bounds(fuel_mass as int);
        }
        total_fuel_mass = total_fuel_mass + fuel_mass;
        fuel_mass = calculate_fuel(fuel_mass);
        proof {
            if fuel_mass > 0 {
                lemma_total_fuel_bounds(fuel_mass as int);
            }
        }
    }
    total_fuel_mass
}

} // verus!
