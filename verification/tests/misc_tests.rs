use adp_trafic_aerien::batch::{batch_ranges, batches_to_send, full_batch_ranges, BATCH_SIZE};
use adp_trafic_aerien::report::{dashboard_page, health, home_page, section_title, total_count};
use adp_trafic_aerien::schema::{load_order, Table};

#[test]
fn batches_of_the_flights_table() {
    assert_eq!(batch_ranges(4500, BATCH_SIZE), vec![(0, 2000), (2000, 4000), (4000, 4500)]);
    assert_eq!(batch_ranges(4000, BATCH_SIZE), vec![(0, 2000), (2000, 4000)]);
    assert_eq!(batch_ranges(1, BATCH_SIZE), vec![(0, 1)]);
    assert!(batch_ranges(0, BATCH_SIZE).is_empty());
}

#[test]
fn batches_hold_every_row_once() {
    for n in [0usize, 1, 1999, 2000, 2001, 252704] {
        let r = batch_ranges(n, BATCH_SIZE);
        let total: usize = r.iter().map(|(a, b)| b - a).sum();
        assert_eq!(total, n);
    }
}

#[test]
fn tables_load_in_foreign_key_order() {
    assert_eq!(
        load_order(),
        vec![Table::Airports, Table::Airlines, Table::Planes, Table::Weather, Table::Flights]
    );
    let names: Vec<&str> = load_order().iter().map(|t| t.file_name()).collect();
    assert_eq!(names, vec!["airports.csv", "airlines.csv", "planes.csv", "weather.csv", "flights.csv"]);
}

#[test]
fn section_headings() {
    assert_eq!(section_title("Q8 - Nombre de vols"), "\n=== Q8 - Nombre de vols ===");
    assert_eq!(section_title(""), "\n===  ===");
}

#[test]
fn totals() {
    assert_eq!(total_count(&vec![58665, 32729, 48110]), Some(139504));
    assert_eq!(total_count(&vec![]), Some(0));
    assert_eq!(total_count(&vec![i64::MAX, 1]), None);
}

#[test]
fn health_check() {
    let h = health();
    assert_eq!(h.status, "ok");
    assert_eq!(h.application, "ADP Trafic aérien");
}

#[test]
fn pages_fall_back_to_a_notice() {
    assert_eq!(home_page(Some("<p>hi</p>".to_string())), "<p>hi</p>");
    assert_eq!(home_page(None), "<h1>Impossible de charger la page d'accueil</h1>");
    assert_eq!(dashboard_page(None), "<h1>Impossible de charger le dashboard</h1>");
}

#[test]
fn a_stopped_load_sends_only_full_batches() {
    assert_eq!(full_batch_ranges(4500, BATCH_SIZE), vec![(0, 2000), (2000, 4000)]);
    assert_eq!(full_batch_ranges(4000, BATCH_SIZE), vec![(0, 2000), (2000, 4000)]);
    assert!(full_batch_ranges(1999, BATCH_SIZE).is_empty());
    assert!(full_batch_ranges(0, BATCH_SIZE).is_empty());
    assert_eq!(batches_to_send(4500, BATCH_SIZE, true), vec![(0, 2000), (2000, 4000)]);
    assert_eq!(batches_to_send(4500, BATCH_SIZE, false), vec![(0, 2000), (2000, 4000), (4000, 4500)]);
}
