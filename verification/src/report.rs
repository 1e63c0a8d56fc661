//! What the reports and the web pages show, apart from the database's
//! answers themselves.

use vstd::prelude::*;

verus! {

/// The heading printed above each answer.
pub fn section_title(title: &str) -> (r: String)
    ensures
        r@ == "\n=== "@ + title@ + " ==="@,
{
    let mut r = String::from_str("\n=== ");
    r.append(title);
    r.append(" ===");
    r
}

/// The sum of `counts`.
pub open spec fn sum_spec(counts: Seq<i64>) -> int
    decreases counts.len(),
{
    if counts.len() == 0 {
        0
    } else {
        sum_spec(counts.drop_last()) + counts.last()
    }
}

/// The sum of the flight counts, `None` when it does not fit in an `i64`
/// (at any step of the addition from the first count to the last).
pub fn total_count(counts: &Vec<i64>) -> (r: Option<i64>)
    ensures
        r matches Some(t) ==> t == sum_spec(counts@),
        r is None ==> exists|k: int|
            0 <= k <= counts.len() && !(i64::MIN <= #[trigger] sum_spec(counts@.take(k))
                <= i64::MAX),
{
    let mut total: i64 = 0;
    let mut i: usize = 0;
    while i < counts.len()
        invariant
            i <= counts.len(),
            total == sum_spec(counts@.take(i as int)),
        decreases counts.len() - i,
    {
        assert(counts@.take(i + 1).drop_last() =~= counts@.take(i as int));
        match total.checked_add(counts[i]) {
            Some(t) => total = t,
            None => {
                assert(!(i64::MIN <= sum_spec(counts@.take(i + 1)) <= i64::MAX));
                return None;
            },
        }
        i = i + 1;
    }
    assert(counts@.take(counts.len() as int) =~= counts@);
    Some(total)
}

/// The answer to the health check of the web server.
#[derive(Debug, PartialEq, Eq)]
pub struct HealthResponse {
    pub status: String,
    pub application: String,
}

/// The server is up: status `ok`, and the application's name.
pub fn health() -> (r: HealthResponse)
    ensures
        r.status@ == "ok"@,
        r.application@ == "ADP Trafic aérien"@,
{
    HealthResponse {
        status: String::from_str("ok"),
        application: String::from_str("ADP Trafic aérien"),
    }
}

/// A page: its file's contents when it could be read, else `fallback`.
pub fn page_or(contents: Option<String>, fallback: &str) -> (r: String)
    ensures
        contents matches Some(c) ==> r@ == c@,
        contents is None ==> r@ == fallback@,
{
    match contents {
        Some(c) => c,
        None => String::from_str(fallback),
    }
}

/// The home page: `templates/index.html`, or an error notice.
pub fn home_page(contents: Option<String>) -> (r: String)
    ensures
        contents matches Some(c) ==> r@ == c@,
        contents is None ==> r@ == "<h1>Impossible de charger la page d'accueil</h1>"@,
{
    page_or(contents, "<h1>Impossible de charger la page d'accueil</h1>")
}

/// The dashboard: `templates/dashboard.html`, or an error notice.
pub fn dashboard_page(contents: Option<String>) -> (r: String)
    ensures
        contents matches Some(c) ==> r@ == c@,
        contents is None ==> r@ == "<h1>Impossible de charger le dashboard</h1>"@,
{
    page_or(contents, "<h1>Impossible de charger le dashboard</h1>")
}

} // verus!
