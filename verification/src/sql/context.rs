//! The SQL context that flows through query handlers and middleware: the
//! query text and its parameter values, the result, the client, the query
//! route with its named parameters, and the handler's configuration and
//! local values.

use vstd::prelude::*;

use super::SqlExecutable;
use crate::protocol::ProtocolRole;
use crate::url::params::StrMap;
use crate::url::pattern::PathPattern;

verus! {

/// The context of one SQL query, over the parameter value type `V`, the
/// result type `R`, the client handle `K`, the configuration `C` and the
/// local value type `L`.
pub struct Context<V, R, K, C, L> {
    /// The query text.
    pub query: String,
    /// The positional parameter values of the query.
    pub params: Vec<V>,
    /// The result, once the query ran.
    pub response: R,
    /// The client that runs the query.
    pub client: Option<K>,
    /// The patterns of the query route (such as `/users/<int:id>`).
    pub query_patterns: Vec<PathPattern>,
    /// The names of the route's segments.
    pub query_names: Vec<Option<String>>,
    /// The named parameter values.
    pub query_params: StrMap<String>,
    /// The handler configuration.
    pub config: Option<C>,
    /// Values that handlers hand on to each other, by name.
    pub locals: StrMap<L>,
    /// What the context executes.
    pub executable: SqlExecutable,
}

impl<V, R, K, C, L> Context<V, R, K, C, L> {
    /// The well-formedness of the two name-keyed stores.
    pub open spec fn wf(self) -> bool {
        self.query_params.wf() && self.locals.wf()
    }

    /// The named parameters as a map.
    pub open spec fn params_view(self) -> Map<Seq<char>, String> {
        self.query_params.view_map()
    }

    /// The local values as a map.
    pub open spec fn locals_view(self) -> Map<Seq<char>, L> {
        self.locals.view_map()
    }

    /// Whether `self` has the empty query state of a fresh context: no
    /// query text, parameters, route, named parameters, configuration or
    /// local values.
    pub open spec fn fresh(self) -> bool {
        &&& self.wf()
        &&& self.query@.len() == 0
        &&& self.params@.len() == 0
        &&& self.query_patterns@.len() == 0
        &&& self.query_names@.len() == 0
        &&& self.params_view().is_empty()
        &&& self.config is None
        &&& self.locals_view().is_empty()
    }

    /// A fresh context with the given result and client.
    fn with_parts(response: R, client: Option<K>) -> (r: Context<V, R, K, C, L>)
        ensures
            r.fresh(),
            r.response == response,
            r.client == client,
    {
        Context {
            query: String::new(),
            params: Vec::new(),
            response,
            client,
            query_patterns: Vec::new(),
            query_names: Vec::new(),
            query_params: StrMap::new(),
            config: None,
            locals: StrMap::new(),
            executable: SqlExecutable::Query,
        }
    }

    /// Sets the query route (builder form).
    pub fn with_query_patterns(self, patterns: Vec<PathPattern>, names: Vec<Option<String>>) -> (r:
        Context<V, R, K, C, L>)
        ensures
            r == (Context { query_patterns: patterns, query_names: names, ..self }),
    {
        Context { query_patterns: patterns, query_names: names, ..self }
    }

    /// Sets the query route.
    pub fn set_query_patterns(&mut self, patterns: Vec<PathPattern>, names: Vec<Option<String>>)
        ensures
            *final(self) == (Context { query_patterns: patterns, query_names: names, ..*old(self) }),
    {
        self.query_patterns = patterns;
        self.query_names = names;
    }

    /// Adds a named parameter (builder form); a parameter of that name is
    /// replaced.
    pub fn with_param(self, key: &str, value: &str) -> (r: Context<V, R, K, C, L>)
        requires
            self.wf(),
        ensures
            r.wf(),
            r.params_view().dom() == self.params_view().dom().insert(key@),
            r.params_view()[key@]@ == value@,
            forall|k: Seq<char>| k != key@ && self.params_view().contains_key(k) ==> #[trigger] r.params_view()[k]
                == self.params_view()[k],
            r.query == self.query,
            r.locals == self.locals,
            r.config == self.config,
    {
        let mut s = self;
        s.add_param(key, value);
        s
    }

    /// Adds a named parameter; a parameter of that name is replaced.
    pub fn add_param(&mut self, key: &str, value: &str)
        requires
            old(self).wf(),
        ensures
            final(self).wf(),
            final(self).params_view().dom() == old(self).params_view().dom().insert(key@),
            final(self).params_view()[key@]@ == value@,
            forall|k: Seq<char>| k != key@ && old(self).params_view().contains_key(k) ==> #[trigger] final(self).params_view()[k]
                == old(self).params_view()[k],
            final(self).query == old(self).query,
            final(self).locals == old(self).locals,
            final(self).config == old(self).config,
    {
        let _ = self.query_params.insert(key.to_string(), value.to_string());
    }

    /// The named parameter `name`, if set.
    pub fn param(&self, name: &str) -> (r: Option<String>)
        requires
            self.wf(),
        ensures
            match r {
                Some(v) => self.params_view().contains_key(name@) && v@ == self.params_view()[name@]@,
                None => !self.params_view().contains_key(name@),
            },
    {
        match self.query_params.get(name) {
            Some(v) => Some(v.clone()),
            None => None,
        }
    }

    /// Sets the configuration (builder form).
    pub fn set_config(self, value: C) -> (r: Context<V, R, K, C, L>)
        ensures
            r == (Context { config: Some(value), ..self }),
    {
        Context { config: Some(value), ..self }
    }

    /// Sets the local value `key` (builder form); a value of that name is
    /// replaced.
    pub fn set_local(self, key: &str, value: L) -> (r: Context<V, R, K, C, L>)
        requires
            self.wf(),
        ensures
            r.wf(),
            r.locals_view() == self.locals_view().insert(key@, value),
            r.query_params == self.query_params,
            r.query == self.query,
            r.config == self.config,
    {
        let mut s = self;
        let _ = s.locals.insert(key.to_string(), value);
        s
    }

    /// The client.
    pub fn client(&self) -> (r: Option<&K>)
        ensures
            match r {
                Some(k) => self.client == Some(*k),
                None => self.client is None,
            },
    {
        match &self.client {
            Some(k) => Some(k),
            None => None,
        }
    }

    /// Sets the query text.
    pub fn set_query(&mut self, query: &str)
        ensures
            final(self).query@ == query@,
            final(self).params == old(self).params,
            final(self).response == old(self).response,
            final(self).query_params == old(self).query_params,
            final(self).locals == old(self).locals,
            final(self).config == old(self).config,
    {
        self.query = query.to_string();
    }

    /// Appends a positional parameter value.
    pub fn add_query_param(&mut self, value: V)
        ensures
            final(self).params@ == old(self).params@.push(value),
            final(self).query == old(self).query,
            final(self).response == old(self).response,
            final(self).query_params == old(self).query_params,
            final(self).locals == old(self).locals,
            final(self).config == old(self).config,
    {
        self.params.push(value);
    }

    /// Stores the result.
    pub fn set_result(&mut self, result: R)
        ensures
            *final(self) == (Context { response: result, ..*old(self) }),
    {
        self.response = result;
    }

    /// The result.
    pub fn result(&self) -> (r: &R)
        ensures
            *r == self.response,
    {
        &self.response
    }

    /// The role of a SQL context: it is always the client side.
    pub fn role(&self) -> (r: ProtocolRole)
        ensures
            r == ProtocolRole::Client,
    {
        ProtocolRole::Client
    }
}

impl<V, R: Default, K, C, L> Context<V, R, K, C, L> {
    /// A fresh context without client; the result is `R`'s default.
    pub fn new() -> (r: Context<V, R, K, C, L>)
        ensures
            r.fresh(),
            r.client is None,
            call_ensures(R::default, (), r.response),
    {
        Context::with_parts(R::default(), None)
    }

    /// A fresh context that runs its query on `client`; the result is
    /// `R`'s default.
    pub fn new_with_client(client: K) -> (r: Context<V, R, K, C, L>)
        ensures
            r.fresh(),
            r.client == Some(client),
            call_ensures(R::default, (), r.response),
    {
        Context::with_parts(R::default(), Some(client))
    }

    /// Takes the result out, leaving `R`'s default in its place; the rest
    /// of the context is unchanged.
    pub fn take_result(&mut self) -> (r: R)
        ensures
            r == old(self).response,
            call_ensures(R::default, (), final(self).response),
            final(self).query == old(self).query,
            final(self).params == old(self).params,
            final(self).client == old(self).client,
            final(self).query_params == old(self).query_params,
            final(self).locals == old(self).locals,
            final(self).config == old(self).config,
    {
        let mut out = R::default();
        std::mem::swap(&mut out, &mut self.response);
        out
    }

    /// On a protocol error the result is reset to `R`'s default; the rest
    /// of the context is unchanged.
    pub fn handle_error(&mut self)
        ensures
            call_ensures(R::default, (), final(self).response),
            final(self).query == old(self).query,
            final(self).params == old(self).params,
            final(self).client == old(self).client,
            final(self).query_params == old(self).query_params,
            final(self).locals == old(self).locals,
            final(self).config == old(self).config,
    {
        self.response = R::default();
    }
}

impl<V, R, K, C: Clone, L> Context<V, R, K, C, L> {
    /// A copy of the configuration, if set.
    pub fn get_config(&self) -> (r: Option<C>)
        ensures
            match r {
                Some(v) => self.config matches Some(c) && cloned(c, v),
                None => self.config is None,
            },
    {
        match &self.config {
            Some(c) => Some(c.clone()),
            None => None,
        }
    }
}

impl<V, R, K, C, L: Clone> Context<V, R, K, C, L> {
    /// A copy of the local value `key`, if set.
    pub fn get_local(&self, key: &str) -> (r: Option<L>)
        requires
            self.wf(),
        ensures
            match r {
                Some(v) => self.locals_view().contains_key(key@) && cloned(self.locals_view()[key@], v),
                None => !self.locals_view().contains_key(key@),
            },
    {
        match self.locals.get(key) {
            Some(v) => Some(v.clone()),
            None => None,
        }
    }
}

impl<V, R: Default, K, C, L> Default for Context<V, R, K, C, L> {
    fn default() -> (r: Context<V, R, K, C, L>)
        ensures
            r.fresh(),
            r.client is None,
            call_ensures(R::default, (), r.response),
    {
        Context::new()
    }
}

} // verus!
