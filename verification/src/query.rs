//! Query builder: composes a parameterized SQL statement from the base
//! projection plus the recognized optional filters. Filter values are never
//! spliced into the statement text: the statement's text is one of four
//! fixed strings chosen only by which filters are present, and the values
//! travel beside it as bound parameters.

use crate::filter::FilterMap;
use crate::QueryError;
use vstd::prelude::*;
use vstd::string::*;

verus! {

/// A decimal digit.
pub open spec fn is_digit(c: char) -> bool {
    '0' <= c && c <= '9'
}

/// The value of one decimal digit.
pub open spec fn digit_of(c: char) -> nat {
    ((c as int) - 48) as nat
}

/// Every character is a decimal digit.
pub open spec fn all_digits(s: Seq<char>) -> bool {
    forall|i: int| 0 <= i < s.len() ==> is_digit(#[trigger] s[i])
}

/// The non-negative integer written in decimal.
pub open spec fn dec_value(s: Seq<char>) -> nat
    decreases s.len(),
{
    if s.len() == 0 {
        0
    } else {
        dec_value(s.drop_last()) * 10 + digit_of(s.last())
    }
}

/// A row limit is accepted when it is a non-empty string of decimal digits
/// whose value fits the machine's integer range.
pub open spec fn valid_limit(s: Seq<char>) -> bool {
    s.len() > 0 && all_digits(s) && dec_value(s) <= u64::MAX
}

proof fn lemma_dec_value_prefix_le(s: Seq<char>, i: int)
    requires
        0 <= i <= s.len(),
        all_digits(s),
    ensures
        dec_value(s.subrange(0, i)) <= dec_value(s),
    decreases s.len() - i,
{
    if i < s.len() {
        lemma_dec_value_prefix_le(s, i + 1);
        assert(s.subrange(0, i + 1).drop_last() =~= s.subrange(0, i));
        assert(dec_value(s.subrange(0, i + 1)) == dec_value(s.subrange(0, i)) * 10 + digit_of(
            s[i],
        ));
    } else {
        assert(s.subrange(0, i) =~= s);
    }
}

/// Validates a row limit: accepted exactly when the string is a non-empty
/// run of decimal digits whose value fits, and then the result is that
/// value.
pub fn parse_limit(s: &str) -> (r: Result<u64, QueryError>)
    ensures
        r is Ok <==> valid_limit(s@),
        r is Ok ==> r->Ok_0 == dec_value(s@),
        r is Err ==> r->Err_0 == QueryError::InvalidLimit,
{
    let n = s.unicode_len();
    if n == 0 {
        return Err(QueryError::InvalidLimit);
    }
    let mut acc: u64 = 0;
    let mut i: usize = 0;
    while i < n
        invariant
            i <= n,
            n == s@.len(),
            all_digits(s@.subrange(0, i as int)),
            acc == dec_value(s@.subrange(0, i as int)),
        decreases n - i,
    {
        let c = s.get_char(i);
        if c < '0' || c > '9' {
            proof {
                assert(!is_digit(s@[i as int]));
            }
            return Err(QueryError::InvalidLimit);
        }
        let d: u64 = ((c as u32) - 48) as u64;
        proof {
            assert(s@.subrange(0, i as int + 1).drop_last() =~= s@.subrange(0, i as int));
            assert(s@.subrange(0, i as int + 1).last() == s@[i as int]);
            assert(dec_value(s@.subrange(0, i as int + 1)) == acc * 10 + digit_of(s@[i as int]));
            assert(forall|j: int|
                0 <= j < i + 1 ==> is_digit(#[trigger] s@.subrange(0, i as int + 1)[j]));
        }
        let acc10 = match acc.checked_mul(10) {
            Some(x) => x,
            None => {
                proof {
                    if all_digits(s@) {
                        lemma_dec_value_prefix_le(s@, i as int + 1);
                    }
                }
                return Err(QueryError::InvalidLimit);
            },
        };
        let acc2 = match acc10.checked_add(d) {
            Some(x) => x,
            None => {
                proof {
                    if all_digits(s@) {
                        lemma_dec_value_prefix_le(s@, i as int + 1);
                    }
                }
                return Err(QueryError::InvalidLimit);
            },
        };
        acc = acc2;
        i = i + 1;
    }
    proof {
        assert(s@.subrange(0, n as int) =~= s@);
    }
    Ok(acc)
}

/// The fixed base projection over the samples table.
pub open spec fn base_sql() -> Seq<char> {
    "SELECT moisture, humidity, temperature, DateTime, uuid FROM samples"@
}

/// The fixed time-range predicate, with two bound parameters.
pub open spec fn range_sql() -> Seq<char> {
    " WHERE DateTime BETWEEN ? AND ?"@
}

/// The fixed ordering clause: descending by timestamp.
pub open spec fn order_sql() -> Seq<char> {
    " ORDER BY DateTime DESC"@
}

/// The fixed row-limit clause, with one bound parameter.
pub open spec fn limit_sql() -> Seq<char> {
    " LIMIT ?"@
}

/// The statement text is a function of which filters are present alone;
/// no filter value can reach it.
pub open spec fn statement_sql(range: bool, limit: bool) -> Seq<char> {
    base_sql() + (if range {
        range_sql()
    } else {
        Seq::<char>::empty()
    }) + order_sql() + (if limit {
        limit_sql()
    } else {
        Seq::<char>::empty()
    })
}

/// The range predicate applies only when both bounds are present.
pub open spec fn has_range(m: Map<Seq<char>, Seq<char>>) -> bool {
    m.contains_key("from"@) && m.contains_key("to"@)
}

/// A row limit was requested.
pub open spec fn has_limit(m: Map<Seq<char>, Seq<char>>) -> bool {
    m.contains_key("limit"@)
}

/// The requested row limit, if any, is acceptable.
pub open spec fn limit_ok(m: Map<Seq<char>, Seq<char>>) -> bool {
    has_limit(m) ==> valid_limit(m["limit"@])
}

/// Law: with no recognized filters the statement is the base projection
/// followed by the fixed descending-timestamp ordering, with no predicates.
pub proof fn lemma_unfiltered_statement_text()
    ensures
        statement_sql(false, false) == base_sql() + order_sql(),
{
    assert(statement_sql(false, false) =~= base_sql() + order_sql());
}

/// Law: the range predicate is asymmetric by design: one bound alone, in
/// either direction, applies no range predicate.
pub proof fn lemma_one_sided_range_applies_nothing(m: Map<Seq<char>, Seq<char>>)
    requires
        !m.contains_key("from"@) || !m.contains_key("to"@),
    ensures
        !has_range(m),
{
}

/// A parameterized statement: fixed text, the time-range values as bound
/// text parameters in order, and the validated row limit as a bound
/// integer. The fields are private so that no caller can splice a value
/// into the text.
#[derive(Debug)]
pub struct Statement {
    sql: String,
    params: Vec<String>,
    limit: Option<u64>,
}

impl Statement {
    /// The statement text.
    pub closed spec fn sql_view(&self) -> Seq<char> {
        self.sql@
    }

    /// The bound text parameters, in placeholder order.
    pub closed spec fn params_view(&self) -> Seq<Seq<char>> {
        self.params.deep_view()
    }

    /// The bound row limit, if one was requested.
    pub closed spec fn limit_view(&self) -> Option<u64> {
        self.limit
    }

    /// The statement text.
    pub fn sql(&self) -> (r: &String)
        ensures
            r@ == self.sql_view(),
    {
        &self.sql
    }

    /// The bound text parameters, in placeholder order.
    pub fn params(&self) -> (r: &Vec<String>)
        ensures
            r.deep_view() == self.params_view(),
    {
        &self.params
    }

    /// The bound row limit, if one was requested.
    pub fn limit(&self) -> (r: Option<u64>)
        ensures
            r == self.limit_view(),
    {
        self.limit
    }
}

/// Composes the statement for a filter mapping: the base projection; the
/// inclusive time-range predicate when both `from` and `to` are present
/// (one bound alone applies nothing, by design); the fixed descending
/// ordering; and a validated row limit when `limit` is present. The only
/// rejection is a `limit` value that is not a non-negative integer in
/// machine range.
pub fn build(filters: &FilterMap) -> (r: Result<Statement, QueryError>)
    ensures
        r is Ok <==> limit_ok(filters@),
        r is Ok ==> r->Ok_0.sql_view() == statement_sql(has_range(filters@), has_limit(filters@)),
        r is Ok ==> r->Ok_0.params_view() == (if has_range(filters@) {
            seq![filters@["from"@], filters@["to"@]]
        } else {
            Seq::<Seq<char>>::empty()
        }),
        r is Ok ==> r->Ok_0.limit_view() == (if has_limit(filters@) {
            Some(dec_value(filters@["limit"@]) as u64)
        } else {
            None::<u64>
        }),
        r is Err ==> r->Err_0 == QueryError::InvalidLimit,
{
    let limit = match filters.get("limit") {
        None => None,
        Some(l) => match parse_limit(l.as_str()) {
            Ok(v) => Some(v),
            Err(e) => {
                return Err(e);
            },
        },
    };
    let mut sql = "SELECT moisture, humidity, temperature, DateTime, uuid FROM samples".to_owned();
    let mut params: Vec<String> = Vec::new();
    let from = filters.get("from");
    let to = filters.get("to");
    if from.is_some() && to.is_some() {
        sql.append(" WHERE DateTime BETWEEN ? AND ?");
        params.push(from.unwrap().clone());
        params.push(to.unwrap().clone());
    }
    sql.append(" ORDER BY DateTime DESC");
    if limit.is_some() {
        sql.append(" LIMIT ?");
    }
    let stmt = Statement { sql, params, limit };
    proof {
        assert(stmt.sql_view() =~= statement_sql(has_range(filters@), has_limit(filters@)));
        if has_range(filters@) {
            assert(stmt.params_view() =~= seq![filters@["from"@], filters@["to"@]]);
        } else {
            assert(stmt.params_view() =~= Seq::<Seq<char>>::empty());
        }
    }
    Ok(stmt)
}

} // verus!
