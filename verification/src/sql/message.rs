//! SQL messages and query results: rows of named cell values, with the
//! number of affected rows.

use vstd::prelude::*;

use crate::url::params::StrMap;

verus! {

/// A query result over the cell value type `V`: the number of rows the
/// statement affected, if known, and the returned rows, each a map from
/// column name to value.
pub struct QueryResult<V> {
    pub rows_affected: Option<u64>,
    pub data: Vec<StrMap<V>>,
}

/// A message of the SQL protocol.
pub enum Message<V> {
    /// A query that returns rows.
    Query(String),
    /// A statement (insert, update, delete) that returns a row count.
    Execute(String),
    /// The result of a query or statement.
    Result(QueryResult<V>),
}

impl<V> QueryResult<V> {
    /// An empty result: no rows, and no count.
    pub fn new() -> (r: QueryResult<V>)
        ensures
            r.rows_affected is None,
            r.data@.len() == 0,
    {
        QueryResult { rows_affected: None, data: Vec::new() }
    }

    /// A result of one row, counted as one affected row.
    pub fn single(row: StrMap<V>) -> (r: QueryResult<V>)
        ensures
            r.rows_affected == Some(1u64),
            r.data@ == seq![row],
    {
        let mut data: Vec<StrMap<V>> = Vec::new();
        data.push(row);
        assert(data@ =~= seq![row]);
        QueryResult { rows_affected: Some(1), data }
    }

    /// A result of the given rows, counted as that many affected rows.
    pub fn rows(data: Vec<StrMap<V>>) -> (r: QueryResult<V>)
        requires
            data@.len() <= u64::MAX,
        ensures
            r.rows_affected == Some(data@.len() as u64),
            r.data == data,
    {
        let count = data.len() as u64;
        QueryResult { rows_affected: Some(count), data }
    }

    /// The result of a statement: `rows` affected rows and no data.
    pub fn affected(rows: u64) -> (r: QueryResult<V>)
        ensures
            r.rows_affected == Some(rows),
            r.data@.len() == 0,
    {
        QueryResult { rows_affected: Some(rows), data: Vec::new() }
    }

    /// Whether no row came back.
    pub fn is_empty(&self) -> (r: bool)
        ensures
            r == (self.data@.len() == 0),
    {
        self.data.len() == 0
    }

    /// The number of rows that came back.
    pub fn len(&self) -> (r: usize)
        ensures
            r == self.data@.len(),
    {
        self.data.len()
    }

    /// The first row, if any.
    pub fn first(&self) -> (r: Option<&StrMap<V>>)
        ensures
            match r {
                Some(row) => self.data@.len() > 0 && *row == self.data@[0],
                None => self.data@.len() == 0,
            },
    {
        if self.data.len() == 0 {
            None
        } else {
            Some(&self.data[0])
        }
    }
}

impl<V> Default for QueryResult<V> {
    fn default() -> (r: QueryResult<V>)
        ensures
            r.rows_affected is None,
            r.data@.len() == 0,
    {
        QueryResult::new()
    }
}

} // verus!
