//! Sample repository planning: the two operations the service exposes,
//! stated as the parameterized statements they execute. The caller runs a
//! statement against a pooled connection, hands the raw rows back to
//! [`crate::sample::decode_rows`], and gets the ordered records.

use crate::filter;
use crate::query;
use crate::query::Statement;
use crate::QueryError;
use vstd::pervasive::unreached;
use vstd::prelude::*;

verus! {

/// A request for samples filtered by a raw query string.
#[derive(Debug)]
pub struct SampleQuery {
    pub query_string: String,
}

/// The fixed, unfiltered queries the repository serves.
pub enum Queries {
    GetAllSamples,
}

/// The filter mapping a raw query string parses to, where it parses at all.
pub open spec fn planned_filters(s: Seq<char>) -> Map<Seq<char>, Seq<char>> {
    filter::spec_parse(s)->Some_0
}

/// The statement of the get-all operation: the base projection in
/// descending timestamp order, with no predicates and no bound parameters.
pub fn all_samples_statement() -> (s: Statement)
    ensures
        s.sql_view() == query::statement_sql(false, false),
        s.params_view() == Seq::<Seq<char>>::empty(),
        s.limit_view() is None,
{
    let m = filter::FilterMap::new();
    match query::build(&m) {
        Ok(s) => s,
        Err(_) => unreached(),
    }
}

/// The statement of the get-filtered operation: parses the raw query string
/// and composes the statement for its recognized filters. Rejected exactly
/// where parsing or limit validation rejects, before anything reaches the
/// database.
pub fn plan_samples_query(raw: &str) -> (r: Result<Statement, QueryError>)
    ensures
        r is Ok <==> filter::spec_parse(raw@) is Some && query::limit_ok(planned_filters(raw@)),
        r is Ok ==> r->Ok_0.sql_view() == query::statement_sql(
            query::has_range(planned_filters(raw@)),
            query::has_limit(planned_filters(raw@)),
        ),
        r is Ok ==> r->Ok_0.params_view() == (if query::has_range(planned_filters(raw@)) {
            seq![planned_filters(raw@)["from"@], planned_filters(raw@)["to"@]]
        } else {
            Seq::<Seq<char>>::empty()
        }),
        r is Ok ==> r->Ok_0.limit_view() == (if query::has_limit(planned_filters(raw@)) {
            Some(query::dec_value(planned_filters(raw@)["limit"@]) as u64)
        } else {
            None::<u64>
        }),
        r is Err ==> r->Err_0 == (if filter::spec_parse(raw@) is None {
            QueryError::MalformedPair
        } else {
            QueryError::InvalidLimit
        }),
{
    let filters = match filter::parse(raw) {
        Ok(m) => m,
        Err(e) => {
            return Err(e);
        },
    };
    query::build(&filters)
}

impl SampleQuery {
    /// Plans the statement for this request's raw query string.
    pub fn plan(&self) -> (r: Result<Statement, QueryError>)
        ensures
            r is Ok <==> filter::spec_parse(self.query_string@) is Some && query::limit_ok(
                planned_filters(self.query_string@),
            ),
            r is Ok ==> r->Ok_0.sql_view() == query::statement_sql(
                query::has_range(planned_filters(self.query_string@)),
                query::has_limit(planned_filters(self.query_string@)),
            ),
            r is Ok ==> r->Ok_0.params_view() == (if query::has_range(
                planned_filters(self.query_string@),
            ) {
                seq![
                    planned_filters(self.query_string@)["from"@],
                    planned_filters(self.query_string@)["to"@],
                ]
            } else {
                Seq::<Seq<char>>::empty()
            }),
            r is Ok ==> r->Ok_0.limit_view() == (if query::has_limit(
                planned_filters(self.query_string@),
            ) {
                Some(query::dec_value(planned_filters(self.query_string@)["limit"@]) as u64)
            } else {
                None::<u64>
            }),
            r is Err ==> r->Err_0 == (if filter::spec_parse(self.query_string@) is None {
                QueryError::MalformedPair
            } else {
                QueryError::InvalidLimit
            }),
    {
        plan_samples_query(self.query_string.as_str())
    }
}

/// The statement for one of the repository's fixed queries.
pub fn statement_for(q: &Queries) -> (s: Statement)
    ensures
        s.sql_view() == query::statement_sql(false, false),
        s.params_view() == Seq::<Seq<char>>::empty(),
        s.limit_view() is None,
{
    match q {
        Queries::GetAllSamples => all_samples_statement(),
    }
}

} // verus!
