use xxgate::pricing::{Decimal, Price, Rates, SearchPrice, value_search, value_usage};
use xxgate::types::ModelRef;
use xxgate::usage::Usage;

fn same(a: &Decimal, b: &Decimal) -> bool {
    let (ma, mb) = (a.mantissa, b.mantissa);
    let (sa, sb) = (a.scale, b.scale);
    ma * 10i128.pow(sb) == mb * 10i128.pow(sa)
}

fn price() -> Price {
    Price {
        version: 1,
        model: ModelRef::codex("test"),
        standard: Rates {
            input_per_million: Decimal::from_u64(10),
            cached_input_per_million: Decimal::one(),
            output_per_million: Decimal::from_u64(20),
            image_input_per_million: None,
            image_output_per_million: None,
            per_image: None,
        },
        fast_multiplier: Some(Decimal::from_u64(2)),
    }
}

#[test]
fn search_pricing_distinguishes_unconfigured_free_and_failed_calls() {
    assert_eq!(value_search(1, None).status, "unpriced_search");
    assert!(same(&value_search(0, None).cny.unwrap(), &Decimal::zero()));
    let mut price = SearchPrice { version: 7, per_call: Some(Decimal::new(12345678, 8)) };
    let saved = value_search(2, Some(&price));
    assert!(same(&saved.cny.unwrap(), &Decimal::new(24691356, 8)));
    assert_eq!(saved.items[0].quantity, 2);
    price.per_call = Some(Decimal::zero());
    assert_eq!(value_search(1, Some(&price)).status, "priced");
    assert!(same(&saved.items[0].rate, &Decimal::new(12345678, 8)));
    for invalid in [Decimal::negative_one(), Decimal::from_u64(1_000_001), Decimal::new(1, 9)] {
        price.per_call = Some(invalid);
        assert!(price.validate().is_err());
    }
}

#[test]
fn subsets_are_not_added_twice() {
    let u = Usage {
        input_tokens: Some(1000),
        cached_input_tokens: Some(500),
        output_tokens: Some(1000),
        reasoning_output_tokens: Some(800),
        complete: true,
        ..Usage::default()
    };
    assert!(same(&value_usage(&u, None, Some(&price())).cny.unwrap(), &Decimal::new(255, 4)));
    assert_eq!(value_usage(&u, Some("fast"), Some(&price())).status, "tier_unknown");
    assert!(value_usage(&Usage::default(), None, Some(&price())).cny.is_none());
}

#[test]
fn fast_multiplies_all_standard_rates_and_is_frozen_in_valuation() {
    let mut p = price();
    p.fast_multiplier = Some(Decimal::new(25, 1));
    p.standard.per_image = Some(Decimal::new(15, 1));
    let usage = Usage {
        input_tokens: Some(1000),
        cached_input_tokens: Some(500),
        output_tokens: Some(1000),
        image_count: 2,
        service_tier: Some("priority".into()),
        complete: true,
        ..Usage::default()
    };
    let valuation = value_usage(&usage, Some("priority"), Some(&p));
    assert!(same(&valuation.cny.unwrap(), &Decimal::new(756375, 5)));
    let image = valuation.items.iter().find(|i| i.kind == "image").unwrap();
    assert!(same(&image.rate, &Decimal::new(375, 2)));
    p.fast_multiplier = Some(Decimal::from_u64(3));
    assert!(same(&valuation.cny.unwrap(), &Decimal::new(756375, 5)));
    let again = value_usage(&usage, Some("priority"), Some(&p)).cny.unwrap();
    assert!(!same(&again, &valuation.cny.unwrap()));
}

#[test]
fn invalid_multiplier_is_rejected_and_legacy_price_has_no_invented_factor() {
    let mut p = price();
    for multiplier in [Decimal::zero(), Decimal::negative_one(), Decimal::from_u64(101)] {
        p.fast_multiplier = Some(multiplier);
        assert!(p.validate().is_err());
    }
    let mut legacy = price();
    legacy.fast_multiplier = None;
    let usage = Usage {
        input_tokens: Some(1),
        output_tokens: Some(1),
        service_tier: Some("priority".into()),
        ..Usage::default()
    };
    assert_eq!(value_usage(&usage, Some("priority"), Some(&legacy)).status, "unpriced_fast");
}

#[test]
fn statuses_say_why_a_valuation_is_incomplete() {
    let base = Usage { input_tokens: Some(10), output_tokens: Some(5), ..Usage::default() };
    assert_eq!(value_usage(&base, None, None).status, "unpriced");
    assert_eq!(value_usage(&base, None, Some(&price())).status, "cache_usage_unknown");
    let zero = Usage { input_tokens: Some(0), output_tokens: Some(5), ..Usage::default() };
    assert_eq!(value_usage(&zero, None, Some(&price())).status, "partial");
    let over = Usage { cached_input_tokens: Some(11), ..Usage { input_tokens: Some(10), output_tokens: Some(5), ..Usage::default() } };
    assert_eq!(value_usage(&over, None, Some(&price())).status, "invalid_usage");
    let images = Usage {
        input_tokens: Some(10),
        cached_input_tokens: Some(0),
        output_tokens: Some(5),
        image_count: 1,
        complete: true,
        ..Usage::default()
    };
    let v = value_usage(&images, None, Some(&price()));
    assert_eq!(v.status, "image_unpriced");
    assert!(v.cny.is_none());
    assert_eq!(v.items.len(), 3);
    assert_eq!(v.price_version, Some(1));
    let mut both = price().standard;
    both.per_image = Some(Decimal::one());
    both.image_input_per_million = Some(Decimal::one());
    assert_eq!(
        both.validate().err().unwrap().message,
        "Use image token rates or a per-image rate, not both"
    );
    let doubled = price().standard.multiplied(Decimal::from_u64(2));
    assert!(same(&doubled.output_per_million, &Decimal::from_u64(40)));
}
