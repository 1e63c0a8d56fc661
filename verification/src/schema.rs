//! The five tables, their files, and the order in which they are loaded:
//! a table is loaded after every table that its foreign keys point to.

use vstd::prelude::*;

verus! {

/// A table of the `trafic_aerien` database.
#[derive(Debug, Clone, Copy, PartialEq, Eq)]
pub enum Table {
    Airports,
    Airlines,
    Planes,
    Weather,
    Flights,
}

/// `t` refers to rows of `u`: flights to their airports, carrier and
/// plane, weather readings to their airport.
pub open spec fn refers_to(t: Table, u: Table) -> bool {
    match (t, u) {
        (Table::Flights, Table::Airports) => true,
        (Table::Flights, Table::Airlines) => true,
        (Table::Flights, Table::Planes) => true,
        (Table::Weather, Table::Airports) => true,
        _ => false,
    }
}

impl Table {
    /// The CSV file that holds the table's rows.
    pub fn file_name(&self) -> (r: &'static str)
        ensures
            *self is Airports ==> r@ == "airports.csv"@,
            *self is Airlines ==> r@ == "airlines.csv"@,
            *self is Planes ==> r@ == "planes.csv"@,
            *self is Weather ==> r@ == "weather.csv"@,
            *self is Flights ==> r@ == "flights.csv"@,
    {
        match self {
            Table::Airports => "airports.csv",
            Table::Airlines => "airlines.csv",
            Table::Planes => "planes.csv",
            Table::Weather => "weather.csv",
            Table::Flights => "flights.csv",
        }
    }
}

/// The order in which the tables are loaded.
pub open spec fn load_order_spec() -> Seq<Table> {
    seq![Table::Airports, Table::Airlines, Table::Planes, Table::Weather, Table::Flights]
}

/// The tables in loading order: the reference tables, then the weather,
/// then the flights.
pub fn load_order() -> (r: Vec<Table>)
    ensures
        r@ == load_order_spec(),
{
    let mut r: Vec<Table> = Vec::new();
    r.push(Table::Airports);
    r.push(Table::Airlines);
    r.push(Table::Planes);
    r.push(Table::Weather);
    r.push(Table::Flights);
    assert(r@ =~= load_order_spec());
    r
}

/// Every table is loaded once, and after every table it refers to.
pub proof fn law_load_order_respects_references()
    ensures
        forall|t: Table| #[trigger] load_order_spec().contains(t),
        forall|i: int, j: int|
            0 <= i < j < load_order_spec().len() ==> load_order_spec()[i] != load_order_spec()[j],
        forall|i: int, j: int|
            0 <= i < load_order_spec().len() && 0 <= j < load_order_spec().len() && refers_to(
                #[trigger] load_order_spec()[i],
                #[trigger] load_order_spec()[j],
            ) ==> j < i,
{
    let o = load_order_spec();
    assert forall|t: Table| #[trigger] o.contains(t) by {
        match t {
            Table::Airports => assert(o[0] == t),
            Table::Airlines => assert(o[1] == t),
            Table::Planes => assert(o[2] == t),
            Table::Weather => assert(o[3] == t),
            Table::Flights => assert(o[4] == t),
        }
    }
}

} // verus!
