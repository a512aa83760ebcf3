//! Named database clients built from a connection string, with a typed
//! configuration value and string-keyed static values.

use vstd::prelude::*;

use crate::sql::DatabaseType;
use crate::url::lexer::lex;
use crate::url::params::StrMap;
use crate::url::parser::{names_view, parse, patterns_of, patterns_view};
use crate::url::pattern::PathPattern;

verus! {

/// Builder of a [`Client`]: connection string and database kind, with an
/// optional name, configuration value and static values.
pub struct ClientBuilder<C, S> {
    name: Option<String>,
    connection_string: String,
    db_type: DatabaseType,
    config: Option<C>,
    statics: StrMap<S>,
}

/// A named database client.
pub struct Client<C, S> {
    /// The client's name (`sql_client` when none was given).
    pub name: String,
    /// The connection string.
    pub connection_string: String,
    /// The database kind.
    pub db_type: DatabaseType,
    /// The configuration value, if one was set.
    pub config: Option<C>,
    /// Static values by key.
    pub statics: StrMap<S>,
}

impl<C, S> ClientBuilder<C, S> {
    /// The name given so far.
    pub closed spec fn name_view(self) -> Option<Seq<char>> {
        match self.name {
            Some(n) => Some(n@),
            None => None,
        }
    }

    /// The connection string.
    pub closed spec fn url_view(self) -> Seq<char> {
        self.connection_string@
    }

    /// The database kind.
    pub closed spec fn kind(self) -> DatabaseType {
        self.db_type
    }

    /// The configuration value.
    pub closed spec fn config_view(self) -> Option<C> {
        self.config
    }

    /// The static values by key.
    pub closed spec fn statics_view(self) -> Map<Seq<char>, S> {
        self.statics.view_map()
    }

    /// The static values are well formed.
    pub closed spec fn wf(self) -> bool {
        self.statics.wf()
    }

    /// A builder for `connection_string` and `db_type`, without name,
    /// configuration or static values.
    pub fn new(connection_string: &str, db_type: DatabaseType) -> (r: ClientBuilder<C, S>)
        ensures
            r.wf(),
            r.name_view() is None,
            r.url_view() == connection_string@,
            r.kind() == db_type,
            r.config_view() is None,
            r.statics_view() == Map::<Seq<char>, S>::empty(),
    {
        ClientBuilder {
            name: None,
            connection_string: connection_string.to_owned(),
            db_type,
            config: None,
            statics: StrMap::new(),
        }
    }

    /// Sets the name.
    pub fn name(self, name: &str) -> (r: ClientBuilder<C, S>)
        ensures
            r.wf() == self.wf(),
            r.name_view() == Some(name@),
            r.url_view() == self.url_view(),
            r.kind() == self.kind(),
            r.config_view() == self.config_view(),
            r.statics_view() == self.statics_view(),
    {
        ClientBuilder { name: Some(name.to_owned()), ..self }
    }

    /// Replaces the configuration.
    pub fn config<D>(self, config: Option<D>) -> (r: ClientBuilder<D, S>)
        ensures
            r.wf() == self.wf(),
            r.name_view() == self.name_view(),
            r.url_view() == self.url_view(),
            r.kind() == self.kind(),
            r.config_view() == config,
            r.statics_view() == self.statics_view(),
    {
        ClientBuilder {
            name: self.name,
            connection_string: self.connection_string,
            db_type: self.db_type,
            config,
            statics: self.statics,
        }
    }

    /// Sets the configuration value.
    pub fn set_config<D>(self, value: D) -> (r: ClientBuilder<D, S>)
        ensures
            r.wf() == self.wf(),
            r.name_view() == self.name_view(),
            r.url_view() == self.url_view(),
            r.kind() == self.kind(),
            r.config_view() == Some(value),
            r.statics_view() == self.statics_view(),
    {
        self.config(Some(value))
    }

    /// Replaces the static values.
    pub fn statics<T>(self, statics: StrMap<T>) -> (r: ClientBuilder<C, T>)
        ensures
            r.wf() == statics.wf(),
            r.name_view() == self.name_view(),
            r.url_view() == self.url_view(),
            r.kind() == self.kind(),
            r.config_view() == self.config_view(),
            r.statics_view() == statics.view_map(),
    {
        ClientBuilder {
            name: self.name,
            connection_string: self.connection_string,
            db_type: self.db_type,
            config: self.config,
            statics,
        }
    }

    /// Sets the static value of `key`.
    pub fn set_static(self, key: &str, value: S) -> (r: ClientBuilder<C, S>)
        requires
            self.wf(),
        ensures
            r.wf(),
            r.name_view() == self.name_view(),
            r.url_view() == self.url_view(),
            r.kind() == self.kind(),
            r.config_view() == self.config_view(),
            r.statics_view() == self.statics_view().insert(key@, value),
    {
        let mut b = self;
        b.statics.insert(key.to_owned(), value);
        b
    }

    /// The client, named `sql_client` when no name was given.
    pub fn build(self) -> (r: std::sync::Arc<Client<C, S>>)
        ensures
            r.name@ == (match self.name_view() {
                Some(n) => n,
                None => "sql_client"@,
            }),
            r.connection_string@ == self.url_view(),
            r.db_type == self.kind(),
            r.config == self.config_view(),
            r.statics.wf() == self.wf(),
            r.statics.view_map() == self.statics_view(),
    {
        let name = match self.name {
            Some(n) => n,
            None => "sql_client".to_string(),
        };
        std::sync::Arc::new(
            Client {
                name,
                connection_string: self.connection_string,
                db_type: self.db_type,
                config: self.config,
                statics: self.statics,
            },
        )
    }
}

impl<C, S> Client<C, S> {
    /// A builder for a Postgres client.
    pub fn postgres(url: &str) -> (r: ClientBuilder<C, S>)
        ensures
            r.wf(),
            r.name_view() is None,
            r.url_view() == url@,
            r.kind() == DatabaseType::Postgres,
            r.config_view() is None,
            r.statics_view() == Map::<Seq<char>, S>::empty(),
    {
        ClientBuilder::new(url, DatabaseType::Postgres)
    }

    /// A builder for a MySQL client.
    pub fn mysql(url: &str) -> (r: ClientBuilder<C, S>)
        ensures
            r.wf(),
            r.name_view() is None,
            r.url_view() == url@,
            r.kind() == DatabaseType::MySQL,
            r.config_view() is None,
            r.statics_view() == Map::<Seq<char>, S>::empty(),
    {
        ClientBuilder::new(url, DatabaseType::MySQL)
    }

    /// A builder for a SQLite client.
    pub fn sqlite(url: &str) -> (r: ClientBuilder<C, S>)
        ensures
            r.wf(),
            r.name_view() is None,
            r.url_view() == url@,
            r.kind() == DatabaseType::SQLite,
            r.config_view() is None,
            r.statics_view() == Map::<Seq<char>, S>::empty(),
    {
        ClientBuilder::new(url, DatabaseType::SQLite)
    }

    /// The configuration value.
    pub fn config(&self) -> (r: &Option<C>)
        ensures
            *r == self.config,
    {
        &self.config
    }

    /// The static values.
    pub fn statics(&self) -> (r: &StrMap<S>)
        ensures
            *r == self.statics,
    {
        &self.statics
    }
}

/// The route of a named query of a client: the client's name and the
/// parsed pattern of the query name with its capture names.
#[derive(Debug, Clone)]
pub struct QueryRoute {
    pub client: String,
    pub patterns: Vec<PathPattern>,
    pub names: Vec<Option<String>>,
}

impl<C, S> Client<C, S> {
    /// The route of the query named `query_name` (a route pattern such as
    /// `/users/<int:id>`); a name that does not parse gives an empty route.
    pub fn query(&self, query_name: &str) -> (r: QueryRoute)
        ensures
            r.client@ == self.name@,
            patterns_of(lex(query_name@)) matches Ok((ps, ns)) ==> patterns_view(r.patterns@) == ps
                && names_view(r.names@) == ns,
            patterns_of(lex(query_name@)) is Err ==> r.patterns@.len() == 0 && r.names@.len() == 0,
    {
        match parse(query_name) {
            Ok((patterns, names)) => QueryRoute { client: self.name.clone(), patterns, names },
            Err(_) => QueryRoute { client: self.name.clone(), patterns: Vec::new(), names: Vec::new() },
        }
    }
}

impl<C: Clone, S: Clone> Client<C, S> {
    /// A copy of the configuration value, if one was set.
    pub fn get_config(&self) -> (r: Option<C>)
        ensures
            r is Some <==> self.config is Some,
            r matches Some(v) ==> cloned(self.config->0, v),
    {
        match &self.config {
            Some(c) => Some(c.clone()),
            None => None,
        }
    }

    /// A copy of the static value of `key`, if it has one.
    pub fn get_static(&self, key: &str) -> (r: Option<S>)
        requires
            self.statics.wf(),
        ensures
            r is Some <==> self.statics.view_map().contains_key(key@),
            r matches Some(v) ==> cloned(self.statics.view_map()[key@], v),
    {
        match self.statics.get(key) {
            Some(v) => Some(v.clone()),
            None => None,
        }
    }
}

impl<C: Clone + Default, S: Clone + Default> Client<C, S> {
    /// A copy of the configuration value, or the default value when none
    /// was set.
    pub fn get_config_or_default(&self) -> (r: C)
        ensures
            self.config matches Some(c) ==> cloned(c, r),
            self.config is None ==> call_ensures(C::default, (), r),
    {
        match &self.config {
            Some(c) => c.clone(),
            None => C::default(),
        }
    }

    /// A copy of the static value of `key`, or the default value when it
    /// has none.
    pub fn get_static_or_default(&self, key: &str) -> (r: S)
        requires
            self.statics.wf(),
        ensures
            self.statics.view_map().contains_key(key@) ==> cloned(self.statics.view_map()[key@], r),
            !self.statics.view_map().contains_key(key@) ==> call_ensures(S::default, (), r),
    {
        match self.statics.get(key) {
            Some(v) => v.clone(),
            None => S::default(),
        }
    }
}

} // verus!
