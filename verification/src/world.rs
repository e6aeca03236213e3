use vstd::prelude::*;

verus! {

pub struct WorldModule;

impl WorldModule {
    pub fn name() -> (n: &'static str)
        ensures
            n@ == "polis-world"@,
    {
        "polis-world"
    }
}

pub const DEFAULT_PARTITION_COUNT: u64 = 64;

/// Largest resource quantity a stock holds.
pub const MAX_RESOURCE_VALUE: u64 = 100_000;

/// Smallest resource quantity allowed where a stock may go negative.
pub const MIN_RESOURCE_VALUE: i64 = -10_000;

/// The kinds of resource in the simulation.
#[derive(Debug, Clone, Copy, PartialEq, Eq, Structural)]
pub enum ResourceKind {
    Food,
    Fuel,
    Material,
    Water,
    Ore,
    Waste,
    Knowledge,
}

/// Default regeneration per tick of each kind.
pub open spec fn spec_base_regen_rate(k: ResourceKind) -> u64 {
    match k {
        ResourceKind::Food => 5,
        ResourceKind::Fuel => 2,
        ResourceKind::Material => 3,
        ResourceKind::Water => 8,
        ResourceKind::Ore => 1,
        ResourceKind::Waste => 0,
        ResourceKind::Knowledge => 0,
    }
}

/// Carrying-capacity multiplier of each kind (knowledge has no cap).
pub open spec fn spec_carrying_capacity_multiplier(k: ResourceKind) -> u64 {
    match k {
        ResourceKind::Food => 1000,
        ResourceKind::Fuel => 500,
        ResourceKind::Material => 800,
        ResourceKind::Water => 1200,
        ResourceKind::Ore => 300,
        ResourceKind::Waste => 2000,
        ResourceKind::Knowledge => u64::MAX,
    }
}

impl ResourceKind {
    /// Default regeneration per tick.
    pub fn base_regen_rate(&self) -> (r: u64)
        ensures
            r == spec_base_regen_rate(*self),
    {
        match self {
            ResourceKind::Food => 5,
            ResourceKind::Fuel => 2,
            ResourceKind::Material => 3,
            ResourceKind::Water => 8,
            ResourceKind::Ore => 1,
            ResourceKind::Waste => 0,
            ResourceKind::Knowledge => 0,
        }
    }

    /// Carrying-capacity multiplier.
    pub fn carrying_capacity_multiplier(&self) -> (r: u64)
        ensures
            r == spec_carrying_capacity_multiplier(*self),
    {
        match self {
            ResourceKind::Food => 1000,
            ResourceKind::Fuel => 500,
            ResourceKind::Material => 800,
            ResourceKind::Water => 1200,
            ResourceKind::Ore => 300,
            ResourceKind::Waste => 2000,
            ResourceKind::Knowledge => u64::MAX,
        }
    }
}

/// Environmental fields that affect productivity.
#[derive(Debug, Clone, Copy, PartialEq, Eq, Structural)]
pub enum FieldKind {
    Temperature,
    Moisture,
    Fertility,
    SolarRadiation,
    BioticPressure,
}

/// The quantities of a partition's six resource stocks.
#[derive(Debug, Clone, Copy, PartialEq, Eq, Structural)]
pub struct StockQuantities {
    pub food: i64,
    pub water: i64,
    pub material: i64,
    pub fuel: i64,
    pub ore: i64,
    pub waste: i64,
}

/// A stock quantity out of its range, with the stock's kind and quantity.
#[derive(Debug, Clone, Copy, PartialEq, Eq, Structural)]
pub enum StockRangeError {
    Negative(ResourceKind, i64),
    ExceedsMax(ResourceKind, i64),
}

/// The stocks in the order they are checked.
pub open spec fn stock_list(q: StockQuantities) -> Seq<(ResourceKind, i64)> {
    seq![
        (ResourceKind::Food, q.food),
        (ResourceKind::Water, q.water),
        (ResourceKind::Material, q.material),
        (ResourceKind::Fuel, q.fuel),
        (ResourceKind::Ore, q.ore),
        (ResourceKind::Waste, q.waste),
    ]
}

/// Whether a quantity lies in `0..=MAX_RESOURCE_VALUE`.
pub open spec fn in_stock_range(v: i64) -> bool {
    0 <= v <= MAX_RESOURCE_VALUE
}

/// The error for the first stock (in `stock_list` order) out of range, if any:
/// below zero is `Negative`, above the maximum `ExceedsMax`.
pub open spec fn first_stock_error(l: Seq<(ResourceKind, i64)>) -> Option<StockRangeError>
    decreases l.len(),
{
    if l.len() == 0 {
        None
    } else if l[0].1 < 0 {
        Some(StockRangeError::Negative(l[0].0, l[0].1))
    } else if l[0].1 > MAX_RESOURCE_VALUE {
        Some(StockRangeError::ExceedsMax(l[0].0, l[0].1))
    } else {
        first_stock_error(l.drop_first())
    }
}

fn check_stock(kind: ResourceKind, v: i64) -> (r: Result<(), StockRangeError>)
    ensures
        r is Ok <==> in_stock_range(v),
        v < 0 ==> r == Err::<(), StockRangeError>(StockRangeError::Negative(kind, v)),
        v > MAX_RESOURCE_VALUE ==> r == Err::<(), StockRangeError>(StockRangeError::ExceedsMax(kind, v)),
{
    if v < 0 {
        Err(StockRangeError::Negative(kind, v))
    } else if v > MAX_RESOURCE_VALUE as i64 {
        Err(StockRangeError::ExceedsMax(kind, v))
    } else {
        Ok(())
    }
}

/// Checks that every stock lies in `0..=MAX_RESOURCE_VALUE`, in the order food,
/// water, material, fuel, ore, waste; the first one out of range is reported.
pub fn validate_stock_ranges(q: &StockQuantities) -> (r: Result<(), StockRangeError>)
    ensures
        r is Ok <==> (forall|i: int| 0 <= i < 6 ==> in_stock_range(#[trigger] stock_list(*q)[i].1)),
        r matches Err(e) ==> first_stock_error(stock_list(*q)) == Some(e),
        r is Ok ==> first_stock_error(stock_list(*q)) is None,
{
    let ghost l = stock_list(*q);
    proof {
        assert(l.drop_first() =~= seq![l[1], l[2], l[3], l[4], l[5]]);
        assert(l.drop_first().drop_first() =~= seq![l[2], l[3], l[4], l[5]]);
        assert(l.drop_first().drop_first().drop_first() =~= seq![l[3], l[4], l[5]]);
        assert(l.drop_first().drop_first().drop_first().drop_first() =~= seq![l[4], l[5]]);
        assert(l.drop_first().drop_first().drop_first().drop_first().drop_first() =~= seq![l[5]]);
        assert(l.drop_first().drop_first().drop_first().drop_first().drop_first().drop_first() =~= Seq::<(ResourceKind, i64)>::empty());
        reveal_with_fuel(first_stock_error, 7);
        assert(l[0].1 == q.food && l[1].1 == q.water && l[2].1 == q.material);
        assert(l[3].1 == q.fuel && l[4].1 == q.ore && l[5].1 == q.waste);
    }
    let checked = check_stock(ResourceKind::Food, q.food);
    if checked.is_err() {
        return checked;
    }
    let checked = check_stock(ResourceKind::Water, q.water);
    if checked.is_err() {
        return checked;
    }
    let checked = check_stock(ResourceKind::Material, q.material);
    if checked.is_err() {
        return checked;
    }
    let checked = check_stock(ResourceKind::Fuel, q.fuel);
    if checked.is_err() {
        return checked;
    }
    let checked = check_stock(ResourceKind::Ore, q.ore);
    if checked.is_err() {
        return checked;
    }
    let checked = check_stock(ResourceKind::Waste, q.waste);
    if checked.is_err() {
        return checked;
    }
    Ok(())
}

} // verus!
