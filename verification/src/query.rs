//! Queries over the structured metadata.

use vstd::prelude::*;
use vstd::string::StringExecFns;

use crate::text::same_text;

verus! {

/// The order of the rows.
#[derive(Clone, Copy, Debug, PartialEq, Eq, Structural)]
pub enum OrderBy {
    IssueAsc,
    IssueDesc,
    TitleAsc,
}

/// The form of the rows.
#[derive(Clone, Copy, Debug, PartialEq, Eq, Structural)]
pub enum Format {
    /// One text with comma-separated values.
    Csv,
    /// One record for each row.
    Json,
}

/// Why a query was refused.
#[derive(Debug)]
pub enum QueryError {
    UnknownOrderBy { given: String },
    UnknownFormat { given: String },
}

impl QueryError {
    /// The message for the client.
    pub open spec fn text(self) -> Seq<char> {
        match self {
            QueryError::UnknownOrderBy { given } => "Unknown order_by: "@ + given@,
            QueryError::UnknownFormat { given } => "Unknown format: "@ + given@
                + " (use csv or json)"@,
        }
    }

    /// The message for the client.
    pub fn message(&self) -> (r: String)
        ensures
            r@ == self.text(),
    {
        let mut m: String = String::new();
        match self {
            QueryError::UnknownOrderBy { given } => {
                m.append("Unknown order_by: ");
                m.append(given.as_str());
            },
            QueryError::UnknownFormat { given } => {
                m.append("Unknown format: ");
                m.append(given.as_str());
                m.append(" (use csv or json)");
            },
        }
        m
    }
}

/// The order with the given name, if there is one.
pub open spec fn order_named(name: Seq<char>) -> Option<OrderBy> {
    if name == "issue_asc"@ {
        Some(OrderBy::IssueAsc)
    } else if name == "issue_desc"@ {
        Some(OrderBy::IssueDesc)
    } else if name == "title_asc"@ {
        Some(OrderBy::TitleAsc)
    } else {
        None
    }
}

/// The form with the given name, if there is one.
pub open spec fn format_named(name: Seq<char>) -> Option<Format> {
    if name == "csv"@ {
        Some(Format::Csv)
    } else if name == "json"@ {
        Some(Format::Json)
    } else {
        None
    }
}

/// The order with the given name.
pub fn parse_order_by(name: &str) -> (r: Result<OrderBy, QueryError>)
    ensures
        match r {
            Ok(order) => order_named(name@) == Some(order),
            Err(e) => {
                &&& order_named(name@) is None
                &&& e matches QueryError::UnknownOrderBy { given }
                &&& given@ == name@
            },
        },
{
    if same_text(name, "issue_asc") {
        Ok(OrderBy::IssueAsc)
    } else if same_text(name, "issue_desc") {
        Ok(OrderBy::IssueDesc)
    } else if same_text(name, "title_asc") {
        Ok(OrderBy::TitleAsc)
    } else {
        Err(QueryError::UnknownOrderBy { given: name.to_owned() })
    }
}

/// The form with the given name.
pub fn parse_format(name: &str) -> (r: Result<Format, QueryError>)
    ensures
        match r {
            Ok(format) => format_named(name@) == Some(format),
            Err(e) => {
                &&& format_named(name@) is None
                &&& e matches QueryError::UnknownFormat { given }
                &&& given@ == name@
            },
        },
{
    if same_text(name, "csv") {
        Ok(Format::Csv)
    } else if same_text(name, "json") {
        Ok(Format::Json)
    } else {
        Err(QueryError::UnknownFormat { given: name.to_owned() })
    }
}

/// What the rows must fulfil. Whatever is left out is not asked for.
pub struct MetadataFilters {
    pub issue_no_min: Option<u64>,
    pub issue_no_max: Option<u64>,
    pub issue_kind: Option<String>,
    pub submitter_contains: Option<String>,
    pub title_contains: Option<String>,
    pub engine_contains: Option<String>,
}

/// A query, ready for the index. The view is one of the index's own.
pub struct QueryOpts<V> {
    pub view: V,
    pub filters: MetadataFilters,
    pub order_by: OrderBy,
    pub limit: usize,
}

/// Readies a query for the index: the filters and the limit go through as they are,
/// the order is looked up by name.
pub fn plan_query<V>(view: V, filters: MetadataFilters, order_by: &str, limit: usize) -> (r: Result<
    QueryOpts<V>,
    QueryError,
>)
    ensures
        match r {
            Ok(opts) => {
                &&& opts.view == view
                &&& opts.filters == filters
                &&& order_named(order_by@) == Some(opts.order_by)
                &&& opts.limit == limit
            },
            Err(e) => {
                &&& order_named(order_by@) is None
                &&& e matches QueryError::UnknownOrderBy { given }
                &&& given@ == order_by@
            },
        },
{
    match parse_order_by(order_by) {
        Ok(order) => Ok(QueryOpts { view, filters, order_by: order, limit }),
        Err(e) => Err(e),
    }
}

/// The answer to a query.
pub struct QueryOutput<R> {
    pub view: String,
    pub columns: Vec<String>,
    /// The rows, in the form that was asked for.
    pub rows: R,
    pub row_count: usize,
    pub truncated: bool,
}

/// The answer to a query: the name of the view as it was asked for, the rows in their
/// form, and what the index tells beside them as it is. Nothing but the rows depends on
/// the form.
pub fn query_output<R>(
    view: String,
    columns: Vec<String>,
    rows: R,
    row_count: usize,
    truncated: bool,
) -> (r: QueryOutput<R>)
    ensures
        r.view@ == view@,
        r.columns@ == columns@,
        r.rows == rows,
        r.row_count == row_count,
        r.truncated == truncated,
{
    QueryOutput { view, columns, rows, row_count, truncated }
}

/// No two names of orders, and no two names of forms, mean the same.
pub proof fn law_names_are_distinct(a: Seq<char>, b: Seq<char>)
    ensures
        order_named(a) is Some && order_named(a) == order_named(b) ==> a == b,
        format_named(a) is Some && format_named(a) == format_named(b) ==> a == b,
{
}

/// There are three orders and two forms, each under one name, and nothing else is known.
pub proof fn law_known_names(name: Seq<char>)
    ensures
        order_named(name) == Some(OrderBy::IssueAsc) <==> name == "issue_asc"@,
        order_named(name) == Some(OrderBy::IssueDesc) <==> name == "issue_desc"@,
        order_named(name) == Some(OrderBy::TitleAsc) <==> name == "title_asc"@,
        format_named(name) == Some(Format::Csv) <==> name == "csv"@,
        format_named(name) == Some(Format::Json) <==> name == "json"@,
{
    reveal_strlit("issue_asc");
    reveal_strlit("issue_desc");
    reveal_strlit("title_asc");
    reveal_strlit("csv");
    reveal_strlit("json");
    assert("issue_asc"@.len() == 9 && "issue_desc"@.len() == 10 && "title_asc"@.len() == 9);
    assert("issue_asc"@[0] == 'i' && "title_asc"@[0] == 't');
    assert("csv"@.len() == 3 && "json"@.len() == 4);
}

/// What the client is told of each error.
pub proof fn law_query_messages(given: String)
    ensures
        (QueryError::UnknownOrderBy { given }).text() == "Unknown order_by: "@ + given@,
        (QueryError::UnknownFormat { given }).text() == "Unknown format: "@ + given@
            + " (use csv or json)"@,
{
}

} // verus!
