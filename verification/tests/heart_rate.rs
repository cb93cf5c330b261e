use health_metrics::calorie_burnt::Sex;
use health_metrics::heart_rate::{
    average_vhr_by_age_for_female, average_vhr_by_age_for_male, ActivityKind,
};

#[test]
fn male_variability_by_age_band() {
    let expected = [
        (0, 61),
        (25, 61),
        (26, 56),
        (30, 56),
        (31, 49),
        (35, 49),
        (36, 43),
        (40, 43),
        (41, 37),
        (45, 37),
        (46, 34),
        (50, 34),
        (51, 32),
        (55, 32),
        (56, 31),
        (255, 31),
    ];
    for (age, ms) in expected {
        assert_eq!(average_vhr_by_age_for_male(age), ms, "age {age}");
    }
}

#[test]
fn female_variability_by_age_band() {
    let expected = [
        (0, 57),
        (25, 57),
        (26, 53),
        (30, 53),
        (31, 47),
        (35, 47),
        (36, 42),
        (40, 42),
        (41, 37),
        (45, 37),
        (46, 34),
        (50, 34),
        (51, 33),
        (55, 33),
        (56, 31),
        (255, 31),
    ];
    for (age, ms) in expected {
        assert_eq!(average_vhr_by_age_for_female(age), ms, "age {age}");
    }
}

#[test]
fn intensity_of_each_zone_in_tenths() {
    assert_eq!(ActivityKind::VO2.intensity_coef(), 9);
    assert_eq!(ActivityKind::Anaerobic.intensity_coef(), 8);
    assert_eq!(ActivityKind::Aerobic.intensity_coef(), 7);
    assert_eq!(ActivityKind::FatBurn.intensity_coef(), 6);
    assert_eq!(ActivityKind::WarmUp.intensity_coef(), 5);
}

#[test]
fn default_zone_is_anaerobic() {
    assert_eq!(ActivityKind::default(), ActivityKind::Anaerobic);
}

#[test]
fn sex_converts_to_and_from_bool() {
    assert!(bool::from(Sex::Male));
    assert!(!bool::from(Sex::Female));
    assert_eq!(Sex::from(true), Sex::Male);
    assert_eq!(Sex::from(false), Sex::Female);
}
