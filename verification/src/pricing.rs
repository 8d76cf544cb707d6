//! Prices of models and searches, and the valuation of a request's usage in
//! CNY. Decimal arithmetic is `rust_decimal`'s.
use vstd::prelude::*;
use crate::text::str_eq;
use crate::types::{Error, ModelRef, Result, plain_error};
use crate::usage::Usage;

verus! {

/// The largest mantissa a decimal can hold: 2^96 - 1.
pub const MAX_MANTISSA: i128 = 79228162514264337593543950335;

/// A decimal number `mantissa / 10^scale`, held as `rust_decimal` holds it.
#[derive(Debug, Clone, Copy)]
pub struct Decimal {
    pub mantissa: i128,
    pub scale: u32,
}

pub open spec fn pow10(n: nat) -> int
    decreases n,
{
    if n == 0 {
        1
    } else {
        10 * pow10((n - 1) as nat)
    }
}

/// `a` is less than `b` as numbers.
pub open spec fn value_lt(a: Decimal, b: Decimal) -> bool {
    a.mantissa * pow10(b.scale as nat) < b.mantissa * pow10(a.scale as nat)
}

/// `a` and `b` are the same number, whatever their scales.
pub open spec fn value_eq(a: Decimal, b: Decimal) -> bool {
    a.mantissa * pow10(b.scale as nat) == b.mantissa * pow10(a.scale as nat)
}

pub open spec fn dec(p: (i128, u32)) -> Decimal {
    Decimal { mantissa: p.0, scale: p.1 }
}

pub open spec fn opt_parts(d: Option<Decimal>) -> Option<(i128, u32)> {
    match d {
        Some(x) => Some(x.parts()),
        None => None,
    }
}

impl Decimal {
    /// A mantissa of at most 96 bits and a scale of at most 28.
    pub open spec fn wf(self) -> bool {
        self.scale <= 28 && -MAX_MANTISSA <= self.mantissa <= MAX_MANTISSA
    }

    pub open spec fn parts(self) -> (i128, u32) {
        (self.mantissa, self.scale)
    }

    /// `mantissa / 10^scale`.
    pub fn new(mantissa: i64, scale: u32) -> (r: Self)
        requires
            scale <= 28,
        ensures
            r.mantissa == mantissa,
            r.scale == scale,
            r.wf(),
    {
        Decimal { mantissa: mantissa as i128, scale }
    }

    pub fn zero() -> (r: Self)
        ensures
            r.mantissa == 0 && r.scale == 0,
    {
        Decimal { mantissa: 0, scale: 0 }
    }

    pub fn one() -> (r: Self)
        ensures
            r.mantissa == 1 && r.scale == 0,
    {
        Decimal { mantissa: 1, scale: 0 }
    }

    pub fn negative_one() -> (r: Self)
        ensures
            r.mantissa == -1 && r.scale == 0,
    {
        Decimal { mantissa: -1, scale: 0 }
    }

    /// The integer `n`.
    pub fn from_u64(n: u64) -> (r: Self)
        ensures
            r.mantissa == n && r.scale == 0,
            r.wf(),
    {
        Decimal { mantissa: n as i128, scale: 0 }
    }

    pub fn scale(&self) -> (r: u32)
        ensures
            r == self.scale,
    {
        self.scale
    }
}

/// What `rust_decimal::Decimal::checked_mul` gives.
pub uninterp spec fn decimal_product(a: (i128, u32), b: (i128, u32)) -> Option<(i128, u32)>;

/// What `rust_decimal::Decimal::checked_div` gives.
pub uninterp spec fn decimal_quotient(a: (i128, u32), b: (i128, u32)) -> Option<(i128, u32)>;

/// What `rust_decimal::Decimal::checked_add` gives.
pub uninterp spec fn decimal_sum(a: (i128, u32), b: (i128, u32)) -> Option<(i128, u32)>;

/// What `rust_decimal::Decimal::round_dp` (banker's rounding) gives.
pub uninterp spec fn decimal_rounded(a: (i128, u32), dp: u32) -> (i128, u32);

/// `<` on `rust_decimal::Decimal`, which orders decimals as numbers.
#[verifier::external_body]
fn dec_lt(a: &Decimal, b: &Decimal) -> (r: bool)
    requires
        a.wf(),
        b.wf(),
    ensures
        r == value_lt(*a, *b),
{
    rust_decimal::Decimal::from_i128_with_scale(a.mantissa, a.scale)
        < rust_decimal::Decimal::from_i128_with_scale(b.mantissa, b.scale)
}

/// `==` on `rust_decimal::Decimal`, which compares decimals as numbers.
#[verifier::external_body]
fn dec_eq(a: &Decimal, b: &Decimal) -> (r: bool)
    requires
        a.wf(),
        b.wf(),
    ensures
        r == value_eq(*a, *b),
{
    rust_decimal::Decimal::from_i128_with_scale(a.mantissa, a.scale)
        == rust_decimal::Decimal::from_i128_with_scale(b.mantissa, b.scale)
}

/// `rust_decimal::Decimal::checked_mul`: `None` on overflow. When either
/// factor is zero the product is a plain zero; when the exact product fits
/// 96 bits with a scale of at most 28 it is that product, unrounded.
#[verifier::external_body]
fn dec_mul(a: &Decimal, b: &Decimal) -> (r: Option<Decimal>)
    requires
        a.wf(),
        b.wf(),
    ensures
        opt_parts(r) == decimal_product(a.parts(), b.parts()),
        r matches Some(c) ==> c.wf(),
        a.mantissa == 0 || b.mantissa == 0 ==> r == Some(dec((0, 0))),
        a.mantissa != 0 && b.mantissa != 0 && a.scale + b.scale <= 28 && -MAX_MANTISSA
            <= a.mantissa * b.mantissa <= MAX_MANTISSA ==> r == Some(
            dec(((a.mantissa * b.mantissa) as i128, (a.scale + b.scale) as u32)),
        ),
{
    let x = rust_decimal::Decimal::from_i128_with_scale(a.mantissa, a.scale);
    let y = rust_decimal::Decimal::from_i128_with_scale(b.mantissa, b.scale);
    match x.checked_mul(y) {
        Some(c) => Some(Decimal { mantissa: c.mantissa(), scale: c.scale() }),
        None => None,
    }
}

/// `rust_decimal::Decimal::checked_div`: `None` on overflow or division by zero.
#[verifier::external_body]
fn dec_div(a: &Decimal, b: &Decimal) -> (r: Option<Decimal>)
    requires
        a.wf(),
        b.wf(),
    ensures
        opt_parts(r) == decimal_quotient(a.parts(), b.parts()),
        r matches Some(c) ==> c.wf(),
{
    let x = rust_decimal::Decimal::from_i128_with_scale(a.mantissa, a.scale);
    let y = rust_decimal::Decimal::from_i128_with_scale(b.mantissa, b.scale);
    match x.checked_div(y) {
        Some(c) => Some(Decimal { mantissa: c.mantissa(), scale: c.scale() }),
        None => None,
    }
}

/// `rust_decimal::Decimal::checked_add`: `None` on overflow.
#[verifier::external_body]
fn dec_add(a: &Decimal, b: &Decimal) -> (r: Option<Decimal>)
    requires
        a.wf(),
        b.wf(),
    ensures
        opt_parts(r) == decimal_sum(a.parts(), b.parts()),
        r matches Some(c) ==> c.wf(),
{
    let x = rust_decimal::Decimal::from_i128_with_scale(a.mantissa, a.scale);
    let y = rust_decimal::Decimal::from_i128_with_scale(b.mantissa, b.scale);
    match x.checked_add(y) {
        Some(c) => Some(Decimal { mantissa: c.mantissa(), scale: c.scale() }),
        None => None,
    }
}

/// `rust_decimal::Decimal::round_dp`: a decimal with at most `dp` places is
/// returned as it is.
#[verifier::external_body]
fn dec_round_dp(a: &Decimal, dp: u32) -> (r: Decimal)
    requires
        a.wf(),
    ensures
        r.parts() == decimal_rounded(a.parts(), dp),
        r.wf(),
        a.scale <= dp ==> r == *a,
{
    let c = rust_decimal::Decimal::from_i128_with_scale(a.mantissa, a.scale).round_dp(dp);
    Decimal { mantissa: c.mantissa(), scale: c.scale() }
}

#[derive(Debug, Clone, Copy)]
pub struct Rates {
    pub input_per_million: Decimal,
    pub cached_input_per_million: Decimal,
    pub output_per_million: Decimal,
    pub image_input_per_million: Option<Decimal>,
    pub image_output_per_million: Option<Decimal>,
    pub per_image: Option<Decimal>,
}

pub open spec fn opt_wf(d: Option<Decimal>) -> bool {
    d matches Some(x) ==> x.wf()
}

pub open spec fn times(x: Decimal, f: Decimal) -> Option<Decimal> {
    match decimal_product(x.parts(), f.parts()) {
        Some(p) => Some(dec(p)),
        None => None,
    }
}

pub open spec fn times_opt(x: Option<Decimal>, f: Decimal) -> Option<Option<Decimal>> {
    match x {
        None => Some(None),
        Some(v) => match times(v, f) {
            Some(p) => Some(Some(p)),
            None => None,
        },
    }
}

/// Every rate multiplied by `f`; `None` when a product overflows.
pub open spec fn multiplied_spec(r: Rates, f: Decimal) -> Option<Rates> {
    if times(r.input_per_million, f) is Some && times(r.cached_input_per_million, f) is Some
        && times(r.output_per_million, f) is Some && times_opt(r.image_input_per_million, f) is Some
        && times_opt(r.image_output_per_million, f) is Some && times_opt(r.per_image, f) is Some {
        Some(
            Rates {
                input_per_million: times(r.input_per_million, f).unwrap(),
                cached_input_per_million: times(r.cached_input_per_million, f).unwrap(),
                output_per_million: times(r.output_per_million, f).unwrap(),
                image_input_per_million: times_opt(r.image_input_per_million, f).unwrap(),
                image_output_per_million: times_opt(r.image_output_per_million, f).unwrap(),
                per_image: times_opt(r.per_image, f).unwrap(),
            },
        )
    } else {
        None
    }
}

/// The price bound: from 0 to 1000000 inclusive.
pub open spec fn in_price_range(v: Decimal) -> bool {
    !value_lt(v, dec((0, 0))) && !value_lt(dec((1_000_000, 0)), v)
}

pub open spec fn opt_in_price_range(v: Option<Decimal>) -> bool {
    v matches Some(x) ==> in_price_range(x)
}

impl Rates {
    pub open spec fn wf(self) -> bool {
        &&& self.input_per_million.wf()
        &&& self.cached_input_per_million.wf()
        &&& self.output_per_million.wf()
        &&& opt_wf(self.image_input_per_million)
        &&& opt_wf(self.image_output_per_million)
        &&& opt_wf(self.per_image)
    }

    fn times_opt(x: &Option<Decimal>, f: &Decimal) -> (r: Option<Option<Decimal>>)
        requires
            opt_wf(*x),
            f.wf(),
        ensures
            r == times_opt(*x, *f),
            r matches Some(v) ==> opt_wf(v),
    {
        match x {
            None => Some(None),
            Some(v) => match dec_mul(v, f) {
                Some(p) => Some(Some(p)),
                None => None,
            },
        }
    }

    fn multiplied_checked(&self, factor: &Decimal) -> (r: Option<Rates>)
        requires
            self.wf(),
            factor.wf(),
        ensures
            r == multiplied_spec(*self, *factor),
            r matches Some(x) ==> x.wf(),
    {
        let a = dec_mul(&self.input_per_million, factor);
        let b = dec_mul(&self.cached_input_per_million, factor);
        let c = dec_mul(&self.output_per_million, factor);
        let d = Self::times_opt(&self.image_input_per_million, factor);
        let e = Self::times_opt(&self.image_output_per_million, factor);
        let f = Self::times_opt(&self.per_image, factor);
        match (a, b, c, d, e, f) {
            (Some(a), Some(b), Some(c), Some(d), Some(e), Some(f)) => Some(
                Rates {
                    input_per_million: a,
                    cached_input_per_million: b,
                    output_per_million: c,
                    image_input_per_million: d,
                    image_output_per_million: e,
                    per_image: f,
                },
            ),
            _ => None,
        }
    }

    /// Every rate multiplied by `factor` (no product may overflow).
    pub fn multiplied(&self, factor: Decimal) -> (r: Rates)
        requires
            self.wf(),
            factor.wf(),
            multiplied_spec(*self, factor) is Some,
        ensures
            r == multiplied_spec(*self, factor).unwrap(),
            r.wf(),
    {
        self.multiplied_checked(&factor).unwrap()
    }

    /// `multiplied`, or `None` where a product would overflow.
    pub fn checked_multiplied(&self, factor: Decimal) -> (r: Option<Rates>)
        requires
            self.wf(),
            factor.wf(),
        ensures
            r == multiplied_spec(*self, factor),
    {
        match self.multiplied_checked(&factor) {
            Some(_) => Some(self.multiplied(factor)),
            None => None,
        }
    }

    fn opt_in_range(v: &Option<Decimal>) -> (r: bool)
        requires
            opt_wf(*v),
        ensures
            r == opt_in_price_range(*v),
    {
        match v {
            Some(x) => Self::in_range(x),
            None => true,
        }
    }

    fn in_range(v: &Decimal) -> (r: bool)
        requires
            v.wf(),
        ensures
            r == in_price_range(*v),
    {
        !dec_lt(v, &Decimal::zero()) && !dec_lt(&Decimal::from_u64(1_000_000), v)
    }

    /// Every rate lies between 0 and 1000000, and a per-image rate excludes
    /// image token rates.
    pub fn validate(&self) -> (r: Result<()>)
        requires
            self.wf(),
        ensures
            !(in_price_range(self.input_per_million) && in_price_range(self.cached_input_per_million)
                && in_price_range(self.output_per_million) && opt_in_price_range(
                self.image_input_per_million,
            ) && opt_in_price_range(self.image_output_per_million) && opt_in_price_range(
                self.per_image,
            )) ==> (r matches Err(e) && plain_error(
                e,
                400,
                "invalid_request"@,
                "Prices must be between 0 and 1000000 CNY"@,
            )),
            in_price_range(self.input_per_million) && in_price_range(self.cached_input_per_million)
                && in_price_range(self.output_per_million) && opt_in_price_range(
                self.image_input_per_million,
            ) && opt_in_price_range(self.image_output_per_million) && opt_in_price_range(
                self.per_image,
            ) ==> {
                &&& (self.per_image is Some && (self.image_input_per_million is Some
                    || self.image_output_per_million is Some)) ==> (r matches Err(e) && plain_error(
                    e,
                    400,
                    "invalid_request"@,
                    "Use image token rates or a per-image rate, not both"@,
                ))
                &&& !(self.per_image is Some && (self.image_input_per_million is Some
                    || self.image_output_per_million is Some)) ==> r is Ok
            },
    {
        if !(Self::in_range(&self.input_per_million) && Self::in_range(&self.cached_input_per_million)
            && Self::in_range(&self.output_per_million) && Self::opt_in_range(
            &self.image_input_per_million,
        ) && Self::opt_in_range(&self.image_output_per_million) && Self::opt_in_range(
            &self.per_image,
        )) {
            return Err(Error::invalid("Prices must be between 0 and 1000000 CNY"));
        }
        if self.per_image.is_some() && (self.image_input_per_million.is_some()
            || self.image_output_per_million.is_some()) {
            return Err(Error::invalid("Use image token rates or a per-image rate, not both"));
        }
        Ok(())
    }
}

#[derive(Debug)]
pub struct Price {
    pub version: i64,
    pub model: ModelRef,
    pub standard: Rates,
    pub fast_multiplier: Option<Decimal>,
}

/// A fast multiplier above 0 and at most 100.
pub open spec fn fast_factor_ok(m: Option<Decimal>) -> bool {
    m matches Some(v) && value_lt(dec((0, 0)), v) && !value_lt(dec((100, 0)), v)
}

fn factor_ok(m: &Option<Decimal>) -> (r: bool)
    requires
        opt_wf(*m),
    ensures
        r == fast_factor_ok(*m),
{
    match m {
        Some(v) => dec_lt(&Decimal::zero(), v) && !dec_lt(&Decimal::from_u64(100), v),
        None => false,
    }
}

impl Price {
    pub open spec fn wf(self) -> bool {
        self.standard.wf() && opt_wf(self.fast_multiplier)
    }

    /// Valid standard rates and a fast multiplier above 0 and at most 100.
    pub fn validate(&self) -> (r: Result<()>)
        requires
            self.wf(),
        ensures
            r is Ok <==> (self.standard.validate_ok() && fast_factor_ok(self.fast_multiplier)),
            self.standard.validate_ok() && !fast_factor_ok(self.fast_multiplier) ==> (r matches Err(e)
                && plain_error(e, 400, "invalid_request"@, "Fast 倍率必须大于 0 且不超过 100。"@)),
    {
        self.standard.validate()?;
        if !factor_ok(&self.fast_multiplier) {
            return Err(Error::invalid("Fast 倍率必须大于 0 且不超过 100。"));
        }
        Ok(())
    }
}

impl Rates {
    /// The rates pass `validate`.
    pub open spec fn validate_ok(self) -> bool {
        &&& in_price_range(self.input_per_million)
        &&& in_price_range(self.cached_input_per_million)
        &&& in_price_range(self.output_per_million)
        &&& opt_in_price_range(self.image_input_per_million)
        &&& opt_in_price_range(self.image_output_per_million)
        &&& opt_in_price_range(self.per_image)
        &&& !(self.per_image is Some && (self.image_input_per_million is Some
            || self.image_output_per_million is Some))
    }
}


#[derive(Debug)]
pub struct Valuation {
    pub status: String,
    pub price_version: Option<i64>,
    pub cny: Option<Decimal>,
    pub items: Vec<PriceLine>,
}

#[derive(Debug)]
pub struct PriceLine {
    pub kind: String,
    pub quantity: u64,
    pub rate: Decimal,
    pub cny: Decimal,
}

#[derive(Debug, Clone, Copy)]
pub struct SearchPrice {
    pub version: i64,
    pub per_call: Option<Decimal>,
}

impl Default for SearchPrice {
    fn default() -> (r: Self)
        ensures
            r.version == 0 && r.per_call is None,
    {
        SearchPrice { version: 0, per_call: None }
    }
}

/// A per-call search price lies between 0 and 1000000 with at most 8 places.
pub open spec fn search_price_ok(p: SearchPrice) -> bool {
    p.per_call matches Some(v) ==> (in_price_range(v) && v.scale <= 8)
}

impl SearchPrice {
    pub fn validate(&self) -> (r: Result<()>)
        requires
            opt_wf(self.per_call),
        ensures
            r is Ok <==> search_price_ok(*self),
            r matches Err(e) ==> plain_error(
                e,
                400,
                "invalid_request"@,
                "Search 单价应为 0 至 1000000 元，最多 8 位小数"@,
            ),
    {
        if let Some(v) = &self.per_call {
            if dec_lt(v, &Decimal::zero()) || dec_lt(&Decimal::from_u64(1_000_000), v) || v.scale
                > 8 {
                return Err(Error::invalid("Search 单价应为 0 至 1000000 元，最多 8 位小数"));
            }
        }
        Ok(())
    }
}

/// A valuation as values: status, total and lines (kind, quantity, rate, CNY).
pub open spec fn valuation_is(
    v: Valuation,
    spec: (Seq<char>, Option<Decimal>, Seq<(Seq<char>, u64, Decimal, Decimal)>),
    version: Option<i64>,
) -> bool {
    &&& v.status@ == spec.0
    &&& v.cny == spec.1
    &&& v.price_version == version
    &&& v.items@.len() == spec.2.len()
    &&& forall|i: int|
        0 <= i < spec.2.len() ==> {
            &&& (#[trigger] v.items@[i]).kind@ == spec.2[i].0
            &&& v.items@[i].quantity == spec.2[i].1
            &&& v.items@[i].rate == spec.2[i].2
            &&& v.items@[i].cny == spec.2[i].3
        }
}

pub open spec fn search_price_of(p: Option<&SearchPrice>) -> Option<SearchPrice> {
    match p {
        Some(x) => Some(*x),
        None => None,
    }
}

/// The valuation of `calls` searches; `None` when the product overflows.
pub open spec fn search_valuation(calls: u64, price: Option<SearchPrice>) -> Option<
    (Seq<char>, Option<Decimal>, Seq<(Seq<char>, u64, Decimal, Decimal)>),
> {
    if calls == 0 {
        Some(("not_charged"@, Some(dec((0, 0))), Seq::empty()))
    } else if !(price matches Some(p) && p.per_call is Some) {
        Some(("unpriced_search"@, None, Seq::empty()))
    } else {
        let rate = price.unwrap().per_call.unwrap();
        match decimal_product((calls as i128, 0), rate.parts()) {
            None => None,
            Some(product) => {
                let cny = dec(decimal_rounded(product, 8));
                Some(("priced"@, Some(cny), seq![("search"@, calls, rate, cny)]))
            },
        }
    }
}

fn search_valuate(calls: u64, price: Option<&SearchPrice>) -> (r: Option<Valuation>)
    requires
        price matches Some(p) ==> opt_wf(p.per_call),
    ensures
        match search_valuation(calls, search_price_of(price)) {
            Some(spec) => r matches Some(v) && valuation_is(v, spec, None),
            None => r is None,
        },
{
    proof {
        reveal_strlit("not_charged");
        reveal_strlit("unpriced_search");
        reveal_strlit("priced");
        reveal_strlit("search");
    }
    if calls == 0 {
        return Some(
            Valuation {
                status: "not_charged".to_owned(),
                price_version: None,
                cny: Some(Decimal::zero()),
                items: Vec::new(),
            },
        );
    }
    let rate = match price {
        Some(p) => match p.per_call {
            Some(v) => v,
            None => {
                return Some(
                    Valuation {
                        status: "unpriced_search".to_owned(),
                        price_version: None,
                        cny: None,
                        items: Vec::new(),
                    },
                );
            },
        },
        None => {
            return Some(
                Valuation {
                    status: "unpriced_search".to_owned(),
                    price_version: None,
                    cny: None,
                    items: Vec::new(),
                },
            );
        },
    };
    let product = match dec_mul(&Decimal::from_u64(calls), &rate) {
        Some(x) => x,
        None => {
            return None;
        },
    };
    let cny = dec_round_dp(&product, 8);
    let mut items: Vec<PriceLine> = Vec::new();
    items.push(PriceLine { kind: "search".to_owned(), quantity: calls, rate, cny });
    Some(Valuation { status: "priced".to_owned(), price_version: None, cny: Some(cny), items })
}

/// The valuation of `calls` web searches at the configured per-call price:
/// free when there were none, unpriced without a price, else priced and
/// rounded to 8 places (the product must not overflow).
pub fn value_search(calls: u64, price: Option<&SearchPrice>) -> (r: Valuation)
    requires
        price matches Some(p) ==> opt_wf(p.per_call),
        search_valuation(calls, search_price_of(price)) is Some,
    ensures
        valuation_is(r, search_valuation(calls, search_price_of(price)).unwrap(), None),
{
    search_valuate(calls, price).unwrap()
}

/// `value_search`, or `None` where the product would overflow.
pub fn checked_value_search(calls: u64, price: Option<&SearchPrice>) -> (r: Option<Valuation>)
    requires
        price matches Some(p) ==> opt_wf(p.per_call),
    ensures
        match search_valuation(calls, search_price_of(price)) {
            Some(spec) => r matches Some(v) && valuation_is(v, spec, None),
            None => r is None,
        },
{
    match search_valuate(calls, price) {
        Some(_) => Some(value_search(calls, price)),
        None => None,
    }
}

/// `fast` and `priority` are the fast service tiers.
pub open spec fn is_fast(t: Option<Seq<char>>) -> bool {
    t == Some("fast"@) || t == Some("priority"@)
}

pub open spec fn tier_text(t: Option<&str>) -> Option<Seq<char>> {
    match t {
        Some(s) => Some(s@),
        None => None,
    }
}

pub open spec fn served_tier(u: Usage) -> Option<Seq<char>> {
    match u.service_tier {
        Some(s) => Some(s@),
        None => None,
    }
}

pub open spec fn price_of(p: Option<&Price>) -> Option<Price> {
    match p {
        Some(x) => Some(*x),
        None => None,
    }
}

/// A line to charge: kind, quantity, rate, and whether the rate is per
/// million units.
pub type PlannedLine = (Seq<char>, u64, Decimal, bool);

pub open spec fn image_part(kind: Seq<char>, n: Option<u64>, rate: Option<Decimal>) -> Seq<PlannedLine> {
    match (n, rate) {
        (Some(n), Some(r)) => seq![(kind, n, r, true)],
        _ => Seq::empty(),
    }
}

/// An image count or token kind that can be charged: reported with a rate,
/// or reported as zero.
pub open spec fn image_part_ok(n: Option<u64>, rate: Option<Decimal>) -> bool {
    match (n, rate) {
        (Some(_), Some(_)) => true,
        (Some(k), None) => k == 0,
        _ => false,
    }
}

pub open spec fn image_lines(u: Usage, rates: Rates) -> Seq<PlannedLine> {
    if u.image_count == 0 {
        Seq::empty()
    } else if rates.per_image is Some {
        seq![("image"@, u.image_count as u64, rates.per_image.unwrap(), false)]
    } else if u.image_tool_usage_reported {
        image_part("image_input"@, u.image_input_tokens, rates.image_input_per_million) + image_part(
            "image_output"@,
            u.image_output_tokens,
            rates.image_output_per_million,
        )
    } else {
        Seq::empty()
    }
}

/// Every image the request made can be charged.
pub open spec fn images_priced(u: Usage, rates: Rates) -> bool {
    u.image_count == 0 || rates.per_image is Some || (u.image_tool_usage_reported && image_part_ok(
        u.image_input_tokens,
        rates.image_input_per_million,
    ) && image_part_ok(u.image_output_tokens, rates.image_output_per_million))
}

/// Uncached input, cached input and output (cached input is a subset of
/// input, so it is never charged twice), then the images.
pub open spec fn planned_lines(u: Usage, rates: Rates, input: u64, cached: u64, output: u64) -> Seq<PlannedLine> {
    seq![
        ("input"@, (input - cached) as u64, rates.input_per_million, true),
        ("cached_input"@, cached, rates.cached_input_per_million, true),
        ("output"@, output, rates.output_per_million, true),
    ] + image_lines(u, rates)
}

/// `count * rate`, over a million when the rate is per million, rounded to 8
/// places; `None` on overflow.
pub open spec fn line_cost(count: u64, rate: Decimal, per_million: bool) -> Option<Decimal> {
    match decimal_product((count as i128, 0), rate.parts()) {
        None => None,
        Some(p) => match decimal_quotient(
            p,
            if per_million {
                (1_000_000, 0)
            } else {
                (1, 0)
            },
        ) {
            None => None,
            Some(q) => Some(dec(decimal_rounded(q, 8))),
        },
    }
}

pub open spec fn costed(plan: Seq<PlannedLine>) -> Option<Seq<(Seq<char>, u64, Decimal, Decimal)>>
    decreases plan.len(),
{
    if plan.len() == 0 {
        Some(Seq::empty())
    } else {
        let l = plan.last();
        match (costed(plan.drop_last()), line_cost(l.1, l.2, l.3)) {
            (Some(done), Some(c)) => Some(done.push((l.0, l.1, l.2, c))),
            _ => None,
        }
    }
}

/// The sum of the lines' CNY from zero, in order; `None` on overflow.
pub open spec fn total(lines: Seq<(Seq<char>, u64, Decimal, Decimal)>) -> Option<Decimal>
    decreases lines.len(),
{
    if lines.len() == 0 {
        Some(dec((0, 0)))
    } else {
        match total(lines.drop_last()) {
            Some(t) => match decimal_sum(t.parts(), lines.last().3.parts()) {
                Some(x) => Some(dec(x)),
                None => None,
            },
            None => None,
        }
    }
}

/// The valuation of a request's usage, checked in a fixed order: usage
/// known, price known, tier known, fast multiplier valid, cached tokens
/// known, usage consistent; then the lines and their sum. `None` when an
/// arithmetic step overflows.
pub open spec fn usage_valuation(u: Usage, tier: Option<Seq<char>>, price: Option<Price>) -> Option<
    (Seq<char>, Option<Decimal>, Seq<(Seq<char>, u64, Decimal, Decimal)>),
> {
    let none = Seq::<(Seq<char>, u64, Decimal, Decimal)>::empty();
    if u.input_tokens is None || u.output_tokens is None {
        Some(("usage_unknown"@, None, none))
    } else if price is None {
        Some(("unpriced"@, None, none))
    } else if served_tier(u) is None && is_fast(tier) {
        Some(("tier_unknown"@, None, none))
    } else if is_fast(served_tier(u)) && !fast_factor_ok(price.unwrap().fast_multiplier) {
        Some(("unpriced_fast"@, None, none))
    } else {
        let p = price.unwrap();
        let rates = if is_fast(served_tier(u)) {
            multiplied_spec(p.standard, p.fast_multiplier.unwrap())
        } else {
            Some(p.standard)
        };
        match rates {
            None => None,
            Some(rates) => {
                let input = u.input_tokens.unwrap();
                let output = u.output_tokens.unwrap();
                if u.cached_input_tokens is None && !(input == 0 || value_eq(
                    rates.input_per_million,
                    rates.cached_input_per_million,
                )) {
                    Some(("cache_usage_unknown"@, None, none))
                } else {
                    let cached = match u.cached_input_tokens {
                        Some(c) => c,
                        None => 0,
                    };
                    if cached > input || (u.reasoning_output_tokens matches Some(n) && n > output) {
                        Some(("invalid_usage"@, None, none))
                    } else {
                        match costed(planned_lines(u, rates, input, cached, output)) {
                            None => None,
                            Some(lines) => {
                                let complete = images_priced(u, rates);
                                let status = if !complete {
                                    "image_unpriced"@
                                } else if u.complete {
                                    "priced"@
                                } else {
                                    "partial"@
                                };
                                if complete {
                                    match total(lines) {
                                        Some(t) => Some((status, Some(t), lines)),
                                        None => None,
                                    }
                                } else {
                                    Some((status, None, lines))
                                }
                            },
                        }
                    }
                }
            },
        }
    }
}

proof fn lemma_costed(plan: Seq<PlannedLine>)
    ensures
        costed(plan) matches Some(ls) ==> {
            &&& ls.len() == plan.len()
            &&& forall|i: int| 0 <= i < plan.len() ==> {
                &&& (#[trigger] ls[i]).0 == plan[i].0
                &&& ls[i].1 == plan[i].1
                &&& ls[i].2 == plan[i].2
                &&& line_cost(plan[i].1, plan[i].2, plan[i].3) == Some(ls[i].3)
            }
        },
    decreases plan.len(),
{
    if plan.len() > 0 {
        lemma_costed(plan.drop_last());
        if let Some(ls) = costed(plan) {
            let done = costed(plan.drop_last()).unwrap();
            assert(ls == done.push((plan.last().0, plan.last().1, plan.last().2, line_cost(plan.last().1, plan.last().2, plan.last().3).unwrap())));
            assert forall|i: int| 0 <= i < plan.len() implies {
                &&& (#[trigger] ls[i]).0 == plan[i].0
                &&& ls[i].1 == plan[i].1
                &&& ls[i].2 == plan[i].2
                &&& line_cost(plan[i].1, plan[i].2, plan[i].3) == Some(ls[i].3)
            } by {
                if i < plan.len() - 1 {
                    assert(ls[i] == done[i]);
                    assert(plan[i] == plan.drop_last()[i]);
                }
            }
        }
    }
}

/// A standard rate as charged for a usage: times the fast factor on a fast
/// tier.
pub open spec fn charged_rate(u: Usage, p: Price, r: Decimal) -> Option<Decimal> {
    if is_fast(served_tier(u)) {
        match p.fast_multiplier {
            Some(f) => times(r, f),
            None => None,
        }
    } else {
        Some(r)
    }
}

/// Tokens are charged once each at their own rate: a valuation with lines
/// starts with the uncached input tokens at the input rate, the cached input
/// tokens at the cached rate and the output tokens at the output rate (each
/// times the fast factor on a fast tier), each costing its count at its rate
/// over a million, rounded to 8 places.
pub proof fn law_tokens_are_charged_at_their_rates(u: Usage, tier: Option<Seq<char>>, price: Option<Price>)
    ensures
        usage_valuation(u, tier, price) matches Some(v) ==> (v.2.len() > 0 ==> {
            let cached: u64 = match u.cached_input_tokens {
                Some(c) => c,
                None => 0,
            };
            &&& price matches Some(p)
            &&& u.input_tokens matches Some(input)
            &&& u.output_tokens matches Some(output)
            &&& cached <= input
            &&& v.2.len() >= 3
            &&& v.2[0].0 == "input"@ && v.2[0].1 == input - cached
            &&& v.2[1].0 == "cached_input"@ && v.2[1].1 == cached
            &&& v.2[2].0 == "output"@ && v.2[2].1 == output
            &&& charged_rate(u, p, p.standard.input_per_million) == Some(v.2[0].2)
            &&& charged_rate(u, p, p.standard.cached_input_per_million) == Some(v.2[1].2)
            &&& charged_rate(u, p, p.standard.output_per_million) == Some(v.2[2].2)
            &&& forall|i: int| 0 <= i < 3 ==> line_cost(v.2[i].1, v.2[i].2, true) == Some(#[trigger] v.2[i].3)
        }),
{
    if let Some(v) = usage_valuation(u, tier, price) {
        if v.2.len() > 0 {
            let p = price.unwrap();
            let rates = if is_fast(served_tier(u)) {
                multiplied_spec(p.standard, p.fast_multiplier.unwrap()).unwrap()
            } else {
                p.standard
            };
            let input = u.input_tokens.unwrap();
            let output = u.output_tokens.unwrap();
            let cached = match u.cached_input_tokens {
                Some(c) => c,
                None => 0,
            };
            let plan = planned_lines(u, rates, input, cached, output);
            lemma_costed(plan);
            assert(costed(plan) == Some(v.2));
            assert(plan[0] == ("input"@, (input - cached) as u64, rates.input_per_million, true));
            assert(plan[1] == ("cached_input"@, cached, rates.cached_input_per_million, true));
            assert(plan[2] == ("output"@, output, rates.output_per_million, true));
        }
    }
}

/// Image output tokens are charged at the image output rate: every
/// `image_output` line of a valuation counts the reported image output
/// tokens at the price's image output rate per million (times the fast
/// factor on a fast tier), and costs that many tokens at that rate, over a
/// million, rounded to 8 places.
pub proof fn law_image_output_uses_the_image_output_rate(u: Usage, tier: Option<Seq<char>>, price: Option<Price>)
    ensures
        usage_valuation(u, tier, price) matches Some(v) ==> forall|i: int|
            0 <= i < v.2.len() && (#[trigger] v.2[i]).0 == "image_output"@ ==> {
                &&& price matches Some(p)
                &&& u.image_output_tokens == Some(v.2[i].1)
                &&& p.standard.image_output_per_million matches Some(base)
                &&& if is_fast(served_tier(u)) {
                    p.fast_multiplier matches Some(f) && times(base, f) == Some(v.2[i].2)
                } else {
                    v.2[i].2 == base
                }
                &&& line_cost(v.2[i].1, v.2[i].2, true) == Some(v.2[i].3)
            },
{
    reveal_strlit("input");
    reveal_strlit("cached_input");
    reveal_strlit("output");
    reveal_strlit("image");
    reveal_strlit("image_input");
    reveal_strlit("image_output");
    if let Some(v) = usage_valuation(u, tier, price) {
        if v.2.len() > 0 {
            let p = price.unwrap();
            let rates = if is_fast(served_tier(u)) {
                multiplied_spec(p.standard, p.fast_multiplier.unwrap()).unwrap()
            } else {
                p.standard
            };
            let input = u.input_tokens.unwrap();
            let output = u.output_tokens.unwrap();
            let cached = match u.cached_input_tokens {
                Some(c) => c,
                None => 0,
            };
            let plan = planned_lines(u, rates, input, cached, output);
            lemma_costed(plan);
            assert(costed(plan) == Some(v.2));
            let base3 = seq![
                ("input"@, (input - cached) as u64, rates.input_per_million, true),
                ("cached_input"@, cached, rates.cached_input_per_million, true),
                ("output"@, output, rates.output_per_million, true),
            ];
            let im = image_lines(u, rates);
            assert(plan == base3 + im);
            assert forall|i: int| 0 <= i < v.2.len() && (#[trigger] v.2[i]).0 == "image_output"@ implies {
                &&& price matches Some(p)
                &&& u.image_output_tokens == Some(v.2[i].1)
                &&& p.standard.image_output_per_million matches Some(base)
                &&& if is_fast(served_tier(u)) {
                    p.fast_multiplier matches Some(f) && times(base, f) == Some(v.2[i].2)
                } else {
                    v.2[i].2 == base
                }
                &&& line_cost(v.2[i].1, v.2[i].2, true) == Some(v.2[i].3)
            } by {
                assert(v.2[i].0 == plan[i].0);
                assert("image_output"@.len() != "input"@.len());
                assert("image_output"@.len() != "output"@.len());
                assert("image_output"@[1] != "cached_input"@[1]);
                assert(i >= 3);
                assert(plan[i] == im[i - 3]);
                assert("image_output"@.len() != "image"@.len());
                assert("image_output"@[6] != "image_input"@[6]);
                let ip = image_part("image_input"@, u.image_input_tokens, rates.image_input_per_million);
                let op = image_part("image_output"@, u.image_output_tokens, rates.image_output_per_million);
                assert(u.image_count != 0 && rates.per_image is None && u.image_tool_usage_reported);
                assert(im == ip + op);
                assert(i - 3 >= ip.len());
                assert(plan[i] == op[i - 3 - ip.len()]);
                assert(op.len() == 1);
            }
        }
    }
}

pub open spec fn price_version_of(price: Option<&Price>) -> Option<i64> {
    match price {
        Some(p) => Some(p.version),
        None => None,
    }
}

fn is_fast_tier(t: Option<&str>) -> (r: bool)
    ensures
        r == is_fast(tier_text(t)),
{
    proof {
        reveal_strlit("fast");
        reveal_strlit("priority");
    }
    match t {
        Some(s) => str_eq(s, "fast") || str_eq(s, "priority"),
        None => false,
    }
}

fn plain_valuation(status: &str, version: Option<i64>) -> (r: Valuation)
    ensures
        valuation_is(r, (status@, None, Seq::empty()), version),
{
    Valuation { status: status.to_owned(), price_version: version, cny: None, items: Vec::new() }
}

/// Prices one planned line and appends it; `false` on overflow.
fn add_line(items: &mut Vec<PriceLine>, kind: &str, count: u64, rate: Decimal, per_million: bool) -> (r: bool)
    requires
        rate.wf(),
    ensures
        r == line_cost(count, rate, per_million) is Some,
        r ==> final(items)@.len() == old(items)@.len() + 1 && final(items)@.drop_last() == old(
            items,
        )@ && final(items)@.last().kind@ == kind@ && final(items)@.last().quantity == count
            && final(items)@.last().rate == rate && final(items)@.last().cny == line_cost(
            count,
            rate,
            per_million,
        ).unwrap() && final(items)@.last().cny.wf(),
        !r ==> final(items)@ == old(items)@,
{
    let product = match dec_mul(&Decimal::from_u64(count), &rate) {
        Some(x) => x,
        None => {
            return false;
        },
    };
    let divisor = if per_million {
        Decimal::from_u64(1_000_000)
    } else {
        Decimal::one()
    };
    let q = match dec_div(&product, &divisor) {
        Some(x) => x,
        None => {
            return false;
        },
    };
    let cny = dec_round_dp(&q, 8);
    items.push(PriceLine { kind: kind.to_owned(), quantity: count, rate, cny });
    true
}

pub open spec fn lines_are(items: Seq<PriceLine>, lines: Seq<(Seq<char>, u64, Decimal, Decimal)>) -> bool {
    &&& items.len() == lines.len()
    &&& forall|i: int|
        0 <= i < lines.len() ==> {
            &&& (#[trigger] items[i]).kind@ == lines[i].0
            &&& items[i].quantity == lines[i].1
            &&& items[i].rate == lines[i].2
            &&& items[i].cny == lines[i].3
            &&& items[i].cny.wf()
        }
}

proof fn lemma_costed_push(plan: Seq<PlannedLine>, l: PlannedLine)
    ensures
        costed(plan.push(l)) == match (costed(plan), line_cost(l.1, l.2, l.3)) {
            (Some(done), Some(c)) => Some(done.push((l.0, l.1, l.2, c))),
            _ => None,
        },
{
    assert(plan.push(l).drop_last() =~= plan);
}

/// Prices the planned lines in order; `None` as soon as one overflows.
fn price_lines(plan: &Vec<(&str, u64, Decimal, bool)>) -> (r: Option<Vec<PriceLine>>)
    requires
        forall|i: int| 0 <= i < plan@.len() ==> (#[trigger] plan@[i]).2.wf(),
    ensures
        match costed(plan_view(plan@)) {
            Some(lines) => r matches Some(items) && lines_are(items@, lines),
            None => r is None,
        },
{
    let mut items: Vec<PriceLine> = Vec::new();
    let mut i: usize = 0;
    while i < plan.len()
        invariant
            i <= plan@.len(),
            forall|j: int| 0 <= j < plan@.len() ==> (#[trigger] plan@[j]).2.wf(),
            costed(plan_view(plan@).take(i as int)) matches Some(lines) && lines_are(items@, lines),
        decreases plan@.len() - i,
    {
        let (kind, count, rate, per_million) = plan[i];
        let ghost before = items@;
        proof {
            assert(plan_view(plan@).take(i + 1) =~= plan_view(plan@).take(i as int).push(
                plan_view(plan@)[i as int],
            ));
            lemma_costed_push(plan_view(plan@).take(i as int), plan_view(plan@)[i as int]);
        }
        if !add_line(&mut items, kind, count, rate, per_million) {
            proof {
                lemma_costed_none(plan_view(plan@), i + 1);
            }
            return None;
        }
        proof {
            let lines0 = costed(plan_view(plan@).take(i as int)).unwrap();
            let c = line_cost(count, rate, per_million).unwrap();
            assert(plan_view(plan@)[i as int] == (kind@, count, rate, per_million));
            let lines1 = lines0.push((kind@, count, rate, c));
            assert(costed(plan_view(plan@).take(i + 1)) == Some(lines1));
            assert forall|j: int| 0 <= j < lines1.len() implies {
                &&& (#[trigger] items@[j]).kind@ == lines1[j].0
                &&& items@[j].quantity == lines1[j].1
                &&& items@[j].rate == lines1[j].2
                &&& items@[j].cny == lines1[j].3
                &&& items@[j].cny.wf()
            } by {
                if j < lines0.len() {
                    assert(items@[j] == before[j]);
                }
            }
        }
        i = i + 1;
    }
    proof {
        assert(plan_view(plan@).take(plan@.len() as int) =~= plan_view(plan@));
    }
    Some(items)
}

proof fn lemma_costed_none(plan: Seq<PlannedLine>, n: int)
    requires
        0 <= n <= plan.len(),
        costed(plan.take(n)) is None,
    ensures
        costed(plan) is None,
    decreases plan.len() - n,
{
    if n < plan.len() {
        assert(plan.take(n + 1).drop_last() =~= plan.take(n));
        lemma_costed_none(plan, n + 1);
    } else {
        assert(plan.take(n) =~= plan);
    }
}

pub open spec fn plan_view(p: Seq<(&str, u64, Decimal, bool)>) -> Seq<PlannedLine> {
    p.map_values(|x: (&str, u64, Decimal, bool)| (x.0@, x.1, x.2, x.3))
}

/// The sum of the lines' CNY; `None` on overflow.
fn sum_lines(items: &Vec<PriceLine>, Ghost(lines): Ghost<Seq<(Seq<char>, u64, Decimal, Decimal)>>) -> (r: Option<Decimal>)
    requires
        lines_are(items@, lines),
    ensures
        r == total(lines),
{
    let mut sum = Decimal::zero();
    let mut i: usize = 0;
    while i < items.len()
        invariant
            i <= items@.len(),
            lines_are(items@, lines),
            total(lines.take(i as int)) == Some(sum),
            sum.wf(),
        decreases items@.len() - i,
    {
        proof {
            assert(lines.take(i + 1).drop_last() =~= lines.take(i as int));
        }
        match dec_add(&sum, &items[i].cny) {
            Some(x) => {
                sum = x;
            },
            None => {
                proof {
                    lemma_total_none(lines, i + 1);
                }
                return None;
            },
        }
        i = i + 1;
    }
    proof {
        assert(lines.take(lines.len() as int) =~= lines);
    }
    Some(sum)
}

proof fn lemma_total_none(lines: Seq<(Seq<char>, u64, Decimal, Decimal)>, n: int)
    requires
        0 <= n <= lines.len(),
        total(lines.take(n)) is None,
    ensures
        total(lines) is None,
    decreases lines.len() - n,
{
    if n < lines.len() {
        assert(lines.take(n + 1).drop_last() =~= lines.take(n));
        lemma_total_none(lines, n + 1);
    } else {
        assert(lines.take(n) =~= lines);
    }
}

fn usage_valuate(usage: &Usage, requested_tier: Option<&str>, price: Option<&Price>) -> (r: Option<Valuation>)
    requires
        price matches Some(p) ==> p.wf(),
    ensures
        match usage_valuation(*usage, tier_text(requested_tier), price_of(price)) {
            Some(spec) => r matches Some(v) && valuation_is(v, spec, price_version_of(price)),
            None => r is None,
        },
{
    proof {
        reveal_strlit("usage_unknown");
        reveal_strlit("unpriced");
        reveal_strlit("tier_unknown");
        reveal_strlit("unpriced_fast");
        reveal_strlit("cache_usage_unknown");
        reveal_strlit("invalid_usage");
        reveal_strlit("image_unpriced");
        reveal_strlit("priced");
        reveal_strlit("partial");
        reveal_strlit("input");
        reveal_strlit("cached_input");
        reveal_strlit("output");
        reveal_strlit("image");
        reveal_strlit("image_input");
        reveal_strlit("image_output");
    }
    let version = match price {
        Some(p) => Some(p.version),
        None => None,
    };
    let input = match usage.input_tokens {
        Some(x) => x,
        None => {
            return Some(plain_valuation("usage_unknown", version));
        },
    };
    let output = match usage.output_tokens {
        Some(x) => x,
        None => {
            return Some(plain_valuation("usage_unknown", version));
        },
    };
    let p = match price {
        Some(p) => p,
        None => {
            return Some(plain_valuation("unpriced", version));
        },
    };
    let actual: Option<&str> = match &usage.service_tier {
        Some(t) => Some(t.as_str()),
        None => None,
    };
    if actual.is_none() && is_fast_tier(requested_tier) {
        return Some(plain_valuation("tier_unknown", version));
    }
    let rates = if is_fast_tier(actual) {
        if !factor_ok(&p.fast_multiplier) {
            return Some(plain_valuation("unpriced_fast", version));
        }
        let factor = p.fast_multiplier.unwrap();
        match p.standard.multiplied_checked(&factor) {
            Some(r) => r,
            None => {
                return None;
            },
        }
    } else {
        p.standard
    };
    let cached = match usage.cached_input_tokens {
        Some(c) => c,
        None => {
            if input == 0 || dec_eq(&rates.input_per_million, &rates.cached_input_per_million) {
                0
            } else {
                return Some(plain_valuation("cache_usage_unknown", version));
            }
        },
    };
    let reasoning_over = match usage.reasoning_output_tokens {
        Some(n) => n > output,
        None => false,
    };
    if cached > input || reasoning_over {
        return Some(plain_valuation("invalid_usage", version));
    }
    let mut plan: Vec<(&str, u64, Decimal, bool)> = Vec::new();
    plan.push(("input", input - cached, rates.input_per_million, true));
    plan.push(("cached_input", cached, rates.cached_input_per_million, true));
    plan.push(("output", output, rates.output_per_million, true));
    let ghost base = plan@;
    let mut complete = true;
    if usage.image_count > 0 {
        if let Some(rate) = rates.per_image {
            plan.push(("image", usage.image_count as u64, rate, false));
        } else if usage.image_tool_usage_reported {
            match (usage.image_input_tokens, rates.image_input_per_million) {
                (Some(n), Some(rate)) => {
                    plan.push(("image_input", n, rate, true));
                },
                (Some(0), _) => {},
                _ => {
                    complete = false;
                },
            }
            match (usage.image_output_tokens, rates.image_output_per_million) {
                (Some(n), Some(rate)) => {
                    plan.push(("image_output", n, rate, true));
                },
                (Some(0), _) => {},
                _ => {
                    complete = false;
                },
            }
        } else {
            complete = false;
        }
    }
    let ghost lines_spec = planned_lines(*usage, rates, input, cached, output);
    proof {
        assert(plan_view(plan@) =~= lines_spec);
        assert(complete == images_priced(*usage, rates));
    }
    let items = match price_lines(&plan) {
        Some(x) => x,
        None => {
            return None;
        },
    };
    let ghost lines = costed(lines_spec).unwrap();
    let status = if !complete {
        "image_unpriced"
    } else if usage.complete {
        "priced"
    } else {
        "partial"
    };
    let cny = if complete {
        match sum_lines(&items, Ghost(lines)) {
            Some(t) => Some(t),
            None => {
                return None;
            },
        }
    } else {
        None
    };
    Some(Valuation { status: status.to_owned(), price_version: version, cny, items })
}

/// Values a request's usage at a price. Cached input is part of input and is
/// never charged twice; a fast tier multiplies every standard rate; anything
/// unknown leaves the total unset with a status saying why. No arithmetic
/// step may overflow.
pub fn value_usage(usage: &Usage, requested_tier: Option<&str>, price: Option<&Price>) -> (r: Valuation)
    requires
        price matches Some(p) ==> p.wf(),
        usage_valuation(*usage, tier_text(requested_tier), price_of(price)) is Some,
    ensures
        valuation_is(
            r,
            usage_valuation(*usage, tier_text(requested_tier), price_of(price)).unwrap(),
            price_version_of(price),
        ),
{
    usage_valuate(usage, requested_tier, price).unwrap()
}

/// `value_usage`, or `None` where an arithmetic step would overflow.
pub fn checked_value_usage(usage: &Usage, requested_tier: Option<&str>, price: Option<&Price>) -> (r:
    Option<Valuation>)
    requires
        price matches Some(p) ==> p.wf(),
    ensures
        match usage_valuation(*usage, tier_text(requested_tier), price_of(price)) {
            Some(spec) => r matches Some(v) && valuation_is(v, spec, price_version_of(price)),
            None => r is None,
        },
{
    match usage_valuate(usage, requested_tier, price) {
        Some(_) => Some(value_usage(usage, requested_tier, price)),
        None => None,
    }
}
} // verus!
