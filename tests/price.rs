use orderflow::price::{Power10, Price, PriceStep};

#[test]
fn round_to_step_goes_to_nearest_multiple() {
    let step = PriceStep { units: 1_000_000 };
    assert_eq!(Price::from_units(10_049_999_999).round_to_step(step).units, 10_050_000_000);
    assert_eq!(Price::from_units(10_049_499_999).round_to_step(step).units, 10_049_000_000);
    assert_eq!(Price::from_units(10_049_500_000).round_to_step(step).units, 10_050_000_000);
    assert_eq!(Price::from_units(-1_400_000).round_to_step(step).units, -1_000_000);
}

#[test]
fn unit_step_leaves_price_unchanged() {
    let p = Price::from_units(123_456_789);
    assert_eq!(p.round_to_step(PriceStep { units: 1 }), p);
    assert_eq!(p.floor_to_step(PriceStep { units: 0 }), p);
    assert_eq!(p.ceil_to_step(PriceStep { units: -5 }), p);
}

#[test]
fn side_step_floors_sells_and_ceils_buys() {
    let step = PriceStep { units: 50 };
    let p = Price::from_units(1_234);
    let low = p.round_to_side_step(true, step);
    let high = p.round_to_side_step(false, step);
    assert_eq!(low.units, 1_200);
    assert_eq!(high.units, 1_250);
    assert!(low.units <= p.units && p.units <= high.units);
    let neg = Price::from_units(-1_234);
    assert_eq!(neg.round_to_side_step(true, step).units, -1_250);
    assert_eq!(neg.round_to_side_step(false, step).units, -1_200);
}

#[test]
fn ceil_saturates_at_top_of_range() {
    let step = PriceStep { units: 10 };
    let p = Price::from_units(i64::MAX - 3);
    assert_eq!(p.ceil_to_step(step).units, (i64::MAX / 10) * 10);
}

#[test]
fn round_to_min_tick_uses_power_of_ten() {
    let p = Price::from_units(10_012_345_678);
    assert_eq!(p.round_to_min_tick(Power10 { power: -2 }).units, 10_012_000_000);
    assert_eq!(p.round_to_min_tick(Power10 { power: 0 }).units, 10_000_000_000);
    assert_eq!(p.round_to_min_tick(Power10 { power: -8 }).units, 10_012_345_678);
    assert_eq!(Price::from_units(4_400_000_000).round_to_min_tick(Power10 { power: 1 }).units, 4_000_000_000);
    assert_eq!(Price::from_units(15_000_000_000).round_to_min_tick(Power10 { power: 2 }).units, 20_000_000_000);
}

#[test]
fn power10_clamps_into_range() {
    assert_eq!(Power10::new(-12, -8, 2).power, -8);
    assert_eq!(Power10::new(5, -8, 2).power, 2);
    assert_eq!(Power10::new(-3, -8, 2).power, -3);
}

#[test]
fn to_string_dp_rounds_and_pads() {
    assert_eq!(Price::from_units(10_012_345_678).to_string_dp(2), "100.12");
    assert_eq!(Price::from_units(10_012_500_000).to_string_dp(2), "100.13");
    assert_eq!(Price::from_units(5_000_000).to_string_dp(3), "0.050");
    assert_eq!(Price::from_units(-150_000_000).to_string_dp(0), "-2");
    assert_eq!(Price::from_units(-149_999_999).to_string_dp(0), "-2");
    assert_eq!(Price::from_units(-1).to_string_dp(4), "-0.0001");
    assert_eq!(Price::from_units(0).to_string_dp(1), "0.0");
    assert_eq!(Price::from_units(123).to_string_dp(12), "0.00000123");
}

#[test]
fn price_arithmetic() {
    let a = Price::from_units(1_000);
    let b = Price::from_units(-250);
    assert_eq!(a.add(b).units, 750);
    assert_eq!(a.sub(b).units, 1_250);
    assert_eq!(Price::from_units(-7).div(2).units, -4);
    assert_eq!(Price::from_units(7).div(-2).units, -3);
}
