use intcode::fuel::{calculate_fuel, calculate_fuel_part_2};

#[test]
fn fuel_small_masses() {
    assert_eq!(calculate_fuel(12), 2);
    assert_eq!(calculate_fuel(14), 2);
}

#[test]
fn fuel_large_masses() {
    assert_eq!(calculate_fuel(1969), 654);
    assert_eq!(calculate_fuel(100756), 33583);
}

#[test]
fn fuel_tiny_mass_goes_negative() {
    assert_eq!(calculate_fuel(2), -2);
}

#[test]
fn fuel_negative_mass_divides_toward_zero() {
    assert_eq!(calculate_fuel(-7), -4);
}

#[test]
fn total_fuel_negative_mass_is_zero() {
    assert_eq!(calculate_fuel_part_2(-5), 0);
    assert_eq!(calculate_fuel_part_2(0), 0);
}

#[test]
fn total_fuel_small_mass() {
    assert_eq!(calculate_fuel_part_2(14), 2);
}

#[test]
fn total_fuel_large_masses() {
    assert_eq!(calculate_fuel_part_2(1969), 966);
    assert_eq!(calculate_fuel_part_2(100756), 50346);
}
