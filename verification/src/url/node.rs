//! Route-tree nodes: child tables, step names and resumable search state.

use vstd::prelude::*;

use crate::url::pattern::{PathPattern, PatternV};

pub mod children;
pub mod cursor;
pub mod partial;
pub mod stepname;

use crate::url::node::children::{Children, ChildrenV};
use crate::url::node::stepname::StepName;
use crate::url::params::StrMap;

verus! {

/// Mathematical form of a node: its pattern, its child table, its handler,
/// its route parameters and its capture names.
pub struct NodeV<H, P> {
    pub path: PatternV,
    pub children: ChildrenV,
    pub handler: Option<H>,
    pub params: Map<Seq<char>, P>,
    pub names: Map<Seq<char>, usize>,
}

/// One node of a route tree. Children are referred to by their index in the
/// tree that owns the node.
///
/// Route parameters are configuration values attached to a route, by key;
/// registering a route again merges the new parameters over the old ones.
pub struct UrlNode<H, P> {
    path: PathPattern,
    children: Children,
    handler: Option<H>,
    params: StrMap<P>,
    names: StepName,
}

impl<H, P> View for UrlNode<H, P> {
    type V = NodeV<H, P>;

    closed spec fn view(&self) -> NodeV<H, P> {
        NodeV {
            path: self.path@,
            children: self.children@,
            handler: self.handler,
            params: self.params.view_map(),
            names: self.names@,
        }
    }
}

impl<H, P> UrlNode<H, P> {
    /// Well-formedness of the capture names and of the route parameters.
    pub closed spec fn names_wf(self) -> bool {
        self.names.wf() && self.params.wf()
    }

    /// Well-formedness of the child table and of the capture names.
    pub open spec fn wf(self) -> bool {
        self@.children.wf() && self.names_wf()
    }

    /// A node without children.
    pub fn new(path: PathPattern, handler: Option<H>, params: StrMap<P>, names: StepName) -> (r: UrlNode<H, P>)
        requires
            names.wf(),
            params.wf(),
        ensures
            r.wf(),
            r@.path == path@,
            r@.handler == handler,
            r@.params == params.view_map(),
            r@.names == names@,
            r@.children.literals.len() == 0,
            r@.children.regex.len() == 0,
            r@.children.any is None,
            r@.children.any_path is None,
    {
        UrlNode { path, children: Children::new(), handler, params, names }
    }

    /// A node without children, handler or capture names.
    pub fn empty(path: PathPattern) -> (r: UrlNode<H, P>)
        ensures
            r.wf(),
            r@.path == path@,
            r@.handler is None,
            r@.params == Map::<Seq<char>, P>::empty(),
            r@.names == Map::<Seq<char>, usize>::empty(),
            r@.children.literals.len() == 0,
            r@.children.regex.len() == 0,
            r@.children.any is None,
            r@.children.any_path is None,
    {
        UrlNode::new(path, None, StrMap::new(), StepName::new())
    }

    /// A stand-in node: a wildcard without children, handler or names.
    pub fn dangling_url() -> (r: UrlNode<H, P>)
        ensures
            r.wf(),
            r@.path == PatternV::Any,
            r@.handler is None,
            r@.params == Map::<Seq<char>, P>::empty(),
            r@.names == Map::<Seq<char>, usize>::empty(),
            r@.children.literals.len() == 0,
            r@.children.regex.len() == 0,
            r@.children.any is None,
            r@.children.any_path is None,
    {
        UrlNode::empty(PathPattern::Any)
    }

    /// The pattern of this node's own segment.
    pub fn path(&self) -> (r: &PathPattern)
        ensures
            r@ == self@.path,
    {
        &self.path
    }

    /// The child table.
    pub fn children(&self) -> (r: &Children)
        ensures
            r@ == self@.children,
    {
        &self.children
    }

    /// Whether a handler is attached.
    pub fn has_handler(&self) -> (r: bool)
        ensures
            r == (self@.handler is Some),
    {
        self.handler.is_some()
    }

    /// The attached handler.
    pub fn handler(&self) -> (r: Option<&H>)
        ensures
            r is Some <==> self@.handler is Some,
            r matches Some(h) ==> self@.handler == Some(*h),
    {
        match &self.handler {
            Some(h) => Some(h),
            None => None,
        }
    }

    /// The route parameters.
    pub fn params(&self) -> (r: &StrMap<P>)
        requires
            self.wf(),
        ensures
            r.view_map() == self@.params,
            r.wf(),
    {
        &self.params
    }

    /// The route parameter under `key`, if set.
    pub fn get_params(&self, key: &str) -> (r: Option<&P>)
        requires
            self.wf(),
        ensures
            match r {
                Some(v) => self@.params.contains_key(key@) && *v == self@.params[key@],
                None => !self@.params.contains_key(key@),
            },
    {
        self.params.get(key)
    }

    /// Sets the route parameter under `key`, replacing its value.
    pub fn set_params(&mut self, key: &str, value: P)
        requires
            old(self).wf(),
        ensures
            final(self).wf(),
            final(self)@ == (NodeV { params: old(self)@.params.insert(key@, value), ..old(self)@ }),
    {
        let _ = self.params.insert(key.to_string(), value);
    }

    /// The capture names.
    pub fn names(&self) -> (r: &StepName)
        requires
            self.wf(),
        ensures
            r@ == self@.names,
            r.wf(),
    {
        &self.names
    }

    /// The segment index captured under `name`.
    pub fn match_seg_name_with_index(&self, name: &str) -> (r: Option<usize>)
        requires
            self.wf(),
        ensures
            r == (if self@.names.contains_key(name@) {
                Some(self@.names[name@])
            } else {
                None::<usize>
            }),
    {
        self.names.index(name)
    }

    /// The child registered under exactly `pattern`.
    pub fn find_child(&self, pattern: &PathPattern) -> (r: Option<usize>)
        requires
            self.wf(),
        ensures
            r == self@.children.find(pattern@),
    {
        self.children.find(pattern)
    }

    /// Registers child `id`, whose pattern is `pattern`, in the child table.
    pub(crate) fn link_child(&mut self, pattern: &PathPattern, id: usize)
        requires
            old(self).wf(),
        ensures
            final(self).wf(),
            final(self)@.path == old(self)@.path,
            final(self)@.handler == old(self)@.handler,
            final(self)@.params == old(self)@.params,
            final(self)@.names == old(self)@.names,
            forall|q: PatternV| #[trigger] final(self)@.children.find(q) == if q == pattern@ {
                Some(id)
            } else {
                old(self)@.children.find(q)
            },
            pattern@ matches PatternV::Regex(src) ==> final(self)@.children.regex
                == children::regex_without(old(self)@.children.regex, src).push((src, id)),
            !(pattern@ is Regex) ==> final(self)@.children.regex == old(self)@.children.regex,
            !(pattern@ is Literal) ==> final(self)@.children.literals == old(
                self,
            )@.children.literals,
            !(pattern@ is Any) ==> final(self)@.children.any == old(self)@.children.any,
            !(pattern@ is AnyPath) ==> final(self)@.children.any_path == old(
                self,
            )@.children.any_path,
    {
        self.children.insert(pattern, id);
    }

    /// Removes the child registered under exactly `pattern`.
    pub(crate) fn unlink_child(&mut self, pattern: &PathPattern) -> (r: Option<usize>)
        requires
            old(self).wf(),
        ensures
            final(self).wf(),
            r == old(self)@.children.find(pattern@),
            final(self)@.path == old(self)@.path,
            final(self)@.handler == old(self)@.handler,
            final(self)@.params == old(self)@.params,
            final(self)@.names == old(self)@.names,
            forall|q: PatternV| #[trigger] final(self)@.children.find(q) == if q == pattern@ {
                None
            } else {
                old(self)@.children.find(q)
            },
            pattern@ matches PatternV::Regex(src) ==> final(self)@.children.regex
                == children::regex_without(old(self)@.children.regex, src),
            !(pattern@ is Regex) ==> final(self)@.children.regex == old(self)@.children.regex,
            !(pattern@ is Literal) ==> final(self)@.children.literals == old(
                self,
            )@.children.literals,
            !(pattern@ is Any) ==> final(self)@.children.any == old(self)@.children.any,
            !(pattern@ is AnyPath) ==> final(self)@.children.any_path == old(
                self,
            )@.children.any_path,
    {
        self.children.remove(pattern)
    }

    /// Replaces the handler and merges `params` over the route parameters;
    /// replaces the capture names unless `names` is empty, in which case the
    /// current ones stay.
    pub(crate) fn rebind(&mut self, handler: Option<H>, params: StrMap<P>, names: StepName)
        requires
            old(self).wf(),
            names.wf(),
            params.wf(),
        ensures
            final(self).wf(),
            final(self)@.path == old(self)@.path,
            final(self)@.children == old(self)@.children,
            final(self)@.handler == handler,
            final(self)@.params == old(self)@.params.union_prefer_right(params.view_map()),
            final(self)@.names == (if names@.len() == 0 {
                old(self)@.names
            } else {
                names@
            }),
    {
        self.handler = handler;
        self.params.merge(params);
        if !names.is_empty() {
            self.names = names;
        }
    }
}

} // verus!
